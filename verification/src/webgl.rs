//! What the renderer decides before it talks to the graphics context: the
//! state that a shader description asks for, and the texture unit of a slot.

use vstd::prelude::*;
use crate::text::{same, to_chars};
use crate::types::tlu::{Tlu, key_index};

verus! {

/// How often the data of a mesh is expected to change.
#[derive(Clone, Copy, Debug, PartialEq, Eq, Structural)]
pub enum DrawMode {
    Static,
    Dynamic,
}

/// When a fragment passes the depth test.
#[derive(Clone, Copy, Debug, PartialEq, Eq, Structural)]
pub enum DepthFunc {
    Never,
    Less,
    Equal,
    Lequal,
    Greater,
    Notequal,
    Gequal,
    Always,
}

/// The state of the graphics context that a shader description asks for.
#[derive(Clone, Copy, Debug, PartialEq, Eq, Structural)]
pub struct RenderState {
    pub culling: bool,
    pub depth_test: bool,
    pub depth_func: DepthFunc,
    pub depth_mask: bool,
}

/// The depth function of the name `name`; `Less` for a name that is none.
pub open spec fn depth_func_of(name: Seq<char>) -> DepthFunc {
    if name == seq!['n', 'e', 'v', 'e', 'r'] {
        DepthFunc::Never
    } else if name == seq!['l', 'e', 's', 's'] {
        DepthFunc::Less
    } else if name == seq!['e', 'q', 'u', 'a', 'l'] {
        DepthFunc::Equal
    } else if name == seq!['l', 'e', 'q', 'u', 'a', 'l'] {
        DepthFunc::Lequal
    } else if name == seq!['g', 'r', 'e', 'a', 't', 'e', 'r'] {
        DepthFunc::Greater
    } else if name == seq!['n', 'o', 't', 'e', 'q', 'u', 'a', 'l'] {
        DepthFunc::Notequal
    } else if name == seq!['g', 'e', 'q', 'u', 'a', 'l'] {
        DepthFunc::Gequal
    } else if name == seq!['a', 'l', 'w', 'a', 'y', 's'] {
        DepthFunc::Always
    } else {
        DepthFunc::Less
    }
}

/// Whether the parameter `key` is there and set to `on`.
pub open spec fn switched_on(params: Seq<(Seq<char>, Seq<char>)>, key: Seq<char>) -> bool {
    let at = key_index(params, key);
    0 <= at < params.len() && params[at].1 == seq!['o', 'n']
}

/// The state that the parameters ask for: culling, the depth test and
/// writing to the depth buffer are on where `cull`, `ztest` and `depthmask`
/// are set to `on`; the depth function is the one that `depthfunc` names,
/// and `Always` where there is no such parameter.
pub open spec fn state_of(params: Seq<(Seq<char>, Seq<char>)>) -> RenderState {
    let at = key_index(params, seq!['d', 'e', 'p', 't', 'h', 'f', 'u', 'n', 'c']);
    RenderState {
        culling: switched_on(params, seq!['c', 'u', 'l', 'l']),
        depth_test: switched_on(params, seq!['z', 't', 'e', 's', 't']),
        depth_func: if 0 <= at < params.len() {
            depth_func_of(params[at].1)
        } else {
            DepthFunc::Always
        },
        depth_mask: switched_on(params, seq!['d', 'e', 'p', 't', 'h', 'm', 'a', 's', 'k']),
    }
}

/// The texture unit that slot `slot` selects; no unit is selected for a slot
/// other than 0, 1 and 2.
pub open spec fn unit_of(slot: i32) -> Option<u32> {
    if 0 <= slot <= 2 {
        Some(slot as u32)
    } else {
        None
    }
}

/// The depth function of the name `name`.
pub fn depth_func_named(name: &str) -> (func: DepthFunc)
    ensures
        func == depth_func_of(name@),
{
    let chars = to_chars(name);
    let never: Vec<char> = vec!['n', 'e', 'v', 'e', 'r'];
    let less: Vec<char> = vec!['l', 'e', 's', 's'];
    let equal: Vec<char> = vec!['e', 'q', 'u', 'a', 'l'];
    let lequal: Vec<char> = vec!['l', 'e', 'q', 'u', 'a', 'l'];
    let greater: Vec<char> = vec!['g', 'r', 'e', 'a', 't', 'e', 'r'];
    let notequal: Vec<char> = vec!['n', 'o', 't', 'e', 'q', 'u', 'a', 'l'];
    let gequal: Vec<char> = vec!['g', 'e', 'q', 'u', 'a', 'l'];
    let always: Vec<char> = vec!['a', 'l', 'w', 'a', 'y', 's'];
    assert(never@ =~= seq!['n', 'e', 'v', 'e', 'r']);
    assert(less@ =~= seq!['l', 'e', 's', 's']);
    assert(equal@ =~= seq!['e', 'q', 'u', 'a', 'l']);
    assert(lequal@ =~= seq!['l', 'e', 'q', 'u', 'a', 'l']);
    assert(greater@ =~= seq!['g', 'r', 'e', 'a', 't', 'e', 'r']);
    assert(notequal@ =~= seq!['n', 'o', 't', 'e', 'q', 'u', 'a', 'l']);
    assert(gequal@ =~= seq!['g', 'e', 'q', 'u', 'a', 'l']);
    assert(always@ =~= seq!['a', 'l', 'w', 'a', 'y', 's']);
    if same(&chars, &never) {
        DepthFunc::Never
    } else if same(&chars, &less) {
        DepthFunc::Less
    } else if same(&chars, &equal) {
        DepthFunc::Equal
    } else if same(&chars, &lequal) {
        DepthFunc::Lequal
    } else if same(&chars, &greater) {
        DepthFunc::Greater
    } else if same(&chars, &notequal) {
        DepthFunc::Notequal
    } else if same(&chars, &gequal) {
        DepthFunc::Gequal
    } else if same(&chars, &always) {
        DepthFunc::Always
    } else {
        DepthFunc::Less
    }
}

/// Whether the value of a parameter, if there is one, is `on`.
fn is_on(value: Option<&String>) -> (on: bool)
    ensures
        on == match value {
            Some(v) => v@ == seq!['o', 'n'],
            None => false,
        },
{
    match value {
        Some(v) => {
            let chars = to_chars(v.as_str());
            let wanted: Vec<char> = vec!['o', 'n'];
            assert(wanted@ =~= seq!['o', 'n']);
            same(&chars, &wanted)
        },
        None => false,
    }
}

/// The state of the graphics context that `tlu` asks for.
pub fn update_state(tlu: &Tlu) -> (state: RenderState)
    ensures
        state == state_of(tlu@.params),
{
    proof {
        reveal_strlit("cull");
        reveal_strlit("ztest");
        reveal_strlit("depthfunc");
        reveal_strlit("depthmask");
        assert("cull"@ =~= seq!['c', 'u', 'l', 'l']);
        assert("ztest"@ =~= seq!['z', 't', 'e', 's', 't']);
        assert("depthfunc"@ =~= seq!['d', 'e', 'p', 't', 'h', 'f', 'u', 'n', 'c']);
        assert("depthmask"@ =~= seq!['d', 'e', 'p', 't', 'h', 'm', 'a', 's', 'k']);
    }
    let culling = is_on(tlu.get_param("cull"));
    let depth_test = is_on(tlu.get_param("ztest"));
    let depth_func = match tlu.get_param("depthfunc") {
        Some(name) => depth_func_named(name.as_str()),
        None => DepthFunc::Always,
    };
    let depth_mask = is_on(tlu.get_param("depthmask"));
    RenderState { culling, depth_test, depth_func, depth_mask }
}

/// The texture unit that slot `slot` selects.
pub fn texture_unit(slot: i32) -> (unit: Option<u32>)
    ensures
        unit == unit_of(slot),
{
    if 0 <= slot && slot <= 2 {
        Some(slot as u32)
    } else {
        None
    }
}

} // verus!
