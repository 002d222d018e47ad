//! What the asset manager works out of the bytes and names it is given: the
//! kind of an asset, the name of a shader file, and the content of a mesh
//! file.
//!
//! A mesh file holds little-endian words of 32 bits. It begins with the length
//! of the object's name and the name; then come four blocks, each a count and
//! its values: the positions (three values for each of the count), the normals
//! (three), the texture coordinates (two) and the indices (one).

use vstd::prelude::*;
use crate::text::{slice_of, to_chars};

verus! {

/// The word whose bytes, lowest first, are `b0` to `b3`.
pub open spec fn le_u32(b0: u8, b1: u8, b2: u8, b3: u8) -> u32 {
    (b0 as int + b1 as int * 0x100 + b2 as int * 0x1_0000 + b3 as int * 0x100_0000) as u32
}

/// The word that stands at `at` in `bytes`.
pub open spec fn word_at(bytes: Seq<u8>, at: int) -> u32 {
    le_u32(bytes[at], bytes[at + 1], bytes[at + 2], bytes[at + 3])
}

/// The `n` words that stand at `at` in `bytes`, one after the other.
pub open spec fn words_at(bytes: Seq<u8>, at: int, n: int) -> Seq<u32> {
    Seq::new(n as nat, |i: int| word_at(bytes, at + 4 * i))
}

/// The signed number with the bits of `word`.
pub open spec fn signed(word: u32) -> i32 {
    if word < 0x8000_0000 {
        word as i32
    } else {
        (word - 0x1_0000_0000) as i32
    }
}

/// Bytes, and how far they have been read.
pub struct Cursor {
    bytes: Vec<u8>,
    pos: usize,
}

impl Cursor {
    /// The bytes.
    pub closed spec fn bytes(&self) -> Seq<u8> {
        self.bytes@
    }

    /// The number of bytes that have been read.
    pub closed spec fn position(&self) -> int {
        self.pos as int
    }

    /// The position never leaves the bytes.
    pub closed spec fn wf(&self) -> bool {
        self.pos <= self.bytes.len()
    }

    /// A cursor at the start of `bytes`.
    pub fn new(bytes: Vec<u8>) -> (cursor: Cursor)
        ensures
            cursor.wf(),
            cursor.bytes() == bytes@,
            cursor.position() == 0,
    {
        Cursor { bytes, pos: 0 }
    }

    /// The number of bytes that have not been read.
    pub fn remaining(&self) -> (n: usize)
        requires
            self.wf(),
        ensures
            n == self.bytes().len() - self.position(),
    {
        self.bytes.len() - self.pos
    }

    /// Reads the next `n` bytes.
    pub fn read_bytes(&mut self, n: usize) -> (part: Vec<u8>)
        requires
            old(self).wf(),
            old(self).position() + n <= old(self).bytes().len(),
        ensures
            final(self).wf(),
            final(self).bytes() == old(self).bytes(),
            final(self).position() == old(self).position() + n,
            part@ == old(self).bytes().subrange(old(self).position(), old(self).position() + n),
    {
        let mut part: Vec<u8> = Vec::new();
        let start = self.pos;
        let mut i: usize = 0;
        while i < n
            invariant
                i <= n,
                start + n <= self.bytes.len(),
                *self == *old(self),
                start == self.pos,
                part@ == self.bytes@.subrange(start as int, start + i),
            decreases n - i,
        {
            part.push(self.bytes[start + i]);
            proof {
                assert(self.bytes@.subrange(start as int, start + i + 1) =~= self.bytes@.subrange(
                    start as int,
                    start + i,
                ).push(self.bytes@[start + i]));
            }
            i += 1;
        }
        self.pos = start + n;
        part
    }
}

/// Reads the next word.
pub fn read_uint(cursor: &mut Cursor) -> (word: u32)
    requires
        old(cursor).wf(),
        old(cursor).position() + 4 <= old(cursor).bytes().len(),
    ensures
        final(cursor).wf(),
        final(cursor).bytes() == old(cursor).bytes(),
        final(cursor).position() == old(cursor).position() + 4,
        word == word_at(old(cursor).bytes(), old(cursor).position()),
{
    let at = cursor.pos;
    let b0 = cursor.bytes[at] as u32;
    let b1 = cursor.bytes[at + 1] as u32;
    let b2 = cursor.bytes[at + 2] as u32;
    let b3 = cursor.bytes[at + 3] as u32;
    cursor.pos = at + 4;
    b0 + b1 * 0x100 + b2 * 0x1_0000 + b3 * 0x100_0000
}

/// Reads the next word as a signed number.
pub fn read_int(cursor: &mut Cursor) -> (number: i32)
    requires
        old(cursor).wf(),
        old(cursor).position() + 4 <= old(cursor).bytes().len(),
    ensures
        final(cursor).wf(),
        final(cursor).bytes() == old(cursor).bytes(),
        final(cursor).position() == old(cursor).position() + 4,
        number == signed(word_at(old(cursor).bytes(), old(cursor).position())),
{
    let word = read_uint(cursor);
    if word < 0x8000_0000 {
        word as i32
    } else {
        let low: u32 = word - 0x8000_0000;
        (low as i32) - 0x7fff_ffff - 1
    }
}

/// Reads the next word as a count.
pub fn read_header(cursor: &mut Cursor) -> (count: usize)
    requires
        old(cursor).wf(),
        old(cursor).position() + 4 <= old(cursor).bytes().len(),
    ensures
        final(cursor).wf(),
        final(cursor).bytes() == old(cursor).bytes(),
        final(cursor).position() == old(cursor).position() + 4,
        count == word_at(old(cursor).bytes(), old(cursor).position()),
{
    read_uint(cursor) as usize
}

/// What a mesh file holds. The positions, normals and texture coordinates are
/// the bit patterns of 32-bit floating-point numbers.
pub struct MeshFile {
    pub name: Vec<u8>,
    pub positions: Vec<u32>,
    pub normals: Vec<u32>,
    pub uv0: Vec<u32>,
    pub indices: Vec<u32>,
}

/// The block at `at` with `width` values for each of its count: its values
/// and where it ends, where the bytes hold all of it.
pub open spec fn block_at(bytes: Seq<u8>, at: int, width: int) -> Option<(Seq<u32>, int)> {
    if at + 4 <= bytes.len() {
        let n = word_at(bytes, at) * width;
        if at + 4 + 4 * n <= bytes.len() {
            Some((words_at(bytes, at + 4, n), at + 4 + 4 * n))
        } else {
            None
        }
    } else {
        None
    }
}

/// What the mesh file `bytes` holds: the name and the four blocks, where the
/// bytes hold all of them. What follows the last block is not looked at.
pub open spec fn mesh_of(bytes: Seq<u8>) -> Option<
    (Seq<u8>, Seq<u32>, Seq<u32>, Seq<u32>, Seq<u32>),
> {
    if 4 <= bytes.len() && 4 + word_at(bytes, 0) <= bytes.len() {
        let named = 4 + word_at(bytes, 0);
        match block_at(bytes, named, 3) {
            Some((positions, at_normals)) => match block_at(bytes, at_normals, 3) {
                Some((normals, at_uv0)) => match block_at(bytes, at_uv0, 2) {
                    Some((uv0, at_indices)) => match block_at(bytes, at_indices, 1) {
                        Some((indices, _)) => Some(
                            (bytes.subrange(4, named), positions, normals, uv0, indices),
                        ),
                        None => None,
                    },
                    None => None,
                },
                None => None,
            },
            None => None,
        }
    } else {
        None
    }
}

/// Reads the block at the cursor with `width` values for each of its count,
/// where the bytes hold all of it.
pub fn read_block(cursor: &mut Cursor, width: u8) -> (values: Option<Vec<u32>>)
    requires
        old(cursor).wf(),
        1 <= width <= 3,
    ensures
        final(cursor).wf(),
        final(cursor).bytes() == old(cursor).bytes(),
        match values {
            Some(v) => block_at(old(cursor).bytes(), old(cursor).position(), width as int) == Some(
                (v@, final(cursor).position()),
            ),
            None => block_at(old(cursor).bytes(), old(cursor).position(), width as int).is_none(),
        },
{
    if cursor.remaining() < 4 {
        return None;
    }
    let ghost bytes = cursor.bytes();
    let ghost at = cursor.position();
    let count = read_uint(cursor);
    let count = count as u64;
    let n: u64 = if width == 1 {
        count
    } else if width == 2 {
        count * 2
    } else {
        count * 3
    };
    proof {
        let w = word_at(bytes, at) as int;
        let k = width as int;
        let m = n as int;
        assert(m == w * k) by (nonlinear_arith)
            requires
                (k == 1 && m == w) || (k == 2 && m == w * 2) || (k == 3 && m == w * 3),
        ;
    }
    if n * 4 > cursor.remaining() as u64 {
        return None;
    }
    let n = n as usize;
    let mut values: Vec<u32> = Vec::new();
    let mut i: usize = 0;
    while i < n
        invariant
            i <= n,
            cursor.wf(),
            cursor.bytes() == bytes,
            cursor.position() == at + 4 + 4 * i,
            at + 4 + 4 * n <= bytes.len(),
            values@ == words_at(bytes, at + 4, i as int),
        decreases n - i,
    {
        let word = read_uint(cursor);
        values.push(word);
        proof {
            assert(values@ =~= words_at(bytes, at + 4, i + 1));
        }
        i += 1;
    }
    Some(values)
}

/// Reads the mesh file `bytes`, where the bytes hold all it announces.
pub fn parse_mesh(bytes: Vec<u8>) -> (mesh: Option<MeshFile>)
    ensures
        match mesh {
            Some(m) => mesh_of(bytes@) == Some(
                (m.name@, m.positions@, m.normals@, m.uv0@, m.indices@),
            ),
            None => mesh_of(bytes@).is_none(),
        },
{
    let mut cursor = Cursor::new(bytes);
    if cursor.remaining() < 4 {
        return None;
    }
    let name_len = read_header(&mut cursor);
    if name_len > cursor.remaining() {
        return None;
    }
    let name = cursor.read_bytes(name_len);
    let positions = match read_block(&mut cursor, 3) {
        Some(values) => values,
        None => {
            return None;
        },
    };
    let normals = match read_block(&mut cursor, 3) {
        Some(values) => values,
        None => {
            return None;
        },
    };
    let uv0 = match read_block(&mut cursor, 2) {
        Some(values) => values,
        None => {
            return None;
        },
    };
    let indices = match read_block(&mut cursor, 1) {
        Some(values) => values,
        None => {
            return None;
        },
    };
    Some(MeshFile { name, positions, normals, uv0, indices })
}

/// What an asset is, by the ending of its path.
#[derive(Clone, Copy, Debug, PartialEq, Eq, Structural)]
pub enum AssetKind {
    /// A shader description, `.tlu`.
    Shader,
    /// A mesh file, `.tmf`.
    Mesh,
    /// An image, `.png`.
    Texture,
}

pub open spec fn shader_ending() -> Seq<char> {
    seq!['.', 't', 'l', 'u']
}

pub open spec fn mesh_ending() -> Seq<char> {
    seq!['.', 't', 'm', 'f']
}

pub open spec fn texture_ending() -> Seq<char> {
    seq!['.', 'p', 'n', 'g']
}

/// The kind of the asset at `path`, if its ending is known.
pub open spec fn kind_of(path: Seq<char>) -> Option<AssetKind> {
    if shader_ending().is_suffix_of(path) {
        Some(AssetKind::Shader)
    } else if mesh_ending().is_suffix_of(path) {
        Some(AssetKind::Mesh)
    } else if texture_ending().is_suffix_of(path) {
        Some(AssetKind::Texture)
    } else {
        None
    }
}

/// What stands after the last `/` of `path`; all of it where there is none.
pub open spec fn last_segment(path: Seq<char>) -> Seq<char>
    decreases path.len(),
{
    if path.len() == 0 || path.last() == '/' {
        Seq::empty()
    } else {
        last_segment(path.drop_last()).push(path.last())
    }
}

/// Whether `s` ends with the characters of `ending`.
fn ends_with(s: &Vec<char>, ending: &Vec<char>) -> (ends: bool)
    ensures
        ends == ending@.is_suffix_of(s@),
{
    if ending.len() > s.len() {
        return false;
    }
    let shift = s.len() - ending.len();
    let mut i: usize = 0;
    while i < ending.len()
        invariant
            i <= ending.len(),
            shift + ending.len() == s.len(),
            forall|j: int| 0 <= j < i ==> s@[shift + j] == ending@[j],
        decreases ending.len() - i,
    {
        if s[shift + i] != ending[i] {
            assert(s@.subrange(s@.len() - ending@.len(), s@.len() as int)[i as int] != ending@[i as int]);
            return false;
        }
        i += 1;
    }
    assert(s@.subrange(s@.len() - ending@.len(), s@.len() as int) =~= ending@);
    true
}

/// The kind of the asset at `path`, if its ending is known. An asset of
/// another ending is not loaded.
pub fn asset_kind(path: &str) -> (kind: Option<AssetKind>)
    ensures
        kind == kind_of(path@),
{
    let chars = to_chars(path);
    let shader: Vec<char> = vec!['.', 't', 'l', 'u'];
    let mesh: Vec<char> = vec!['.', 't', 'm', 'f'];
    let texture: Vec<char> = vec!['.', 'p', 'n', 'g'];
    assert(shader@ =~= shader_ending());
    assert(mesh@ =~= mesh_ending());
    assert(texture@ =~= texture_ending());
    if ends_with(&chars, &shader) {
        Some(AssetKind::Shader)
    } else if ends_with(&chars, &mesh) {
        Some(AssetKind::Mesh)
    } else if ends_with(&chars, &texture) {
        Some(AssetKind::Texture)
    } else {
        None
    }
}

/// The name under which a file is known to the shaders that draw on it: what
/// stands after the last `/` of its path.
pub fn file_name(path: &str) -> (name: Vec<char>)
    ensures
        name@ == last_segment(path@),
{
    let chars = to_chars(path);
    let mut start: usize = chars.len();
    proof {
        assert(chars@.subrange(start as int, chars@.len() as int) =~= Seq::<char>::empty());
        assert(chars@.take(chars@.len() as int) =~= chars@);
    }
    while start > 0 && chars[start - 1] != '/'
        invariant
            start <= chars.len(),
            last_segment(chars@) == last_segment(chars@.take(start as int)) + chars@.subrange(
                start as int,
                chars@.len() as int,
            ),
        decreases start,
    {
        proof {
            let head = chars@.take(start as int);
            assert(head.drop_last() =~= chars@.take(start - 1));
            assert(last_segment(head.drop_last()).push(head.last()) + chars@.subrange(
                start as int,
                chars@.len() as int,
            ) =~= last_segment(head.drop_last()) + chars@.subrange(
                start - 1,
                chars@.len() as int,
            ));
        }
        start -= 1;
    }
    proof {
        assert(last_segment(chars@.take(start as int)) =~= Seq::<char>::empty());
        assert(Seq::<char>::empty() + chars@.subrange(start as int, chars@.len() as int)
            =~= chars@.subrange(start as int, chars@.len() as int));
    }
    slice_of(&chars, start, chars.len())
}

} // verus!
