//! Which keys and mouse buttons are held down.

use vstd::prelude::*;
use vstd::string::StringExecFns;

verus! {

/// The keys that are held down, by their codes.
pub struct KeyStates {
    pressed: Vec<String>,
}

impl View for KeyStates {
    type V = Set<Seq<char>>;

    closed spec fn view(&self) -> Set<Seq<char>> {
        Set::new(|code: Seq<char>| listed(self.pressed@, code))
    }
}

/// Whether `code` is among `codes`.
pub open spec fn listed(codes: Seq<String>, code: Seq<char>) -> bool {
    exists|i: int| 0 <= i < codes.len() && (#[trigger] codes[i])@ == code
}

/// The code of the mouse button with the number `button`.
pub open spec fn button_code(button: i16) -> Option<Seq<char>> {
    if button == 0 {
        Some("MouseLeft"@)
    } else if button == 1 {
        Some("MouseMiddle"@)
    } else if button == 2 {
        Some("MouseRight"@)
    } else {
        None
    }
}

impl KeyStates {
    /// No key is held down.
    pub fn new() -> (keys: Self)
        ensures
            keys@ == Set::<Seq<char>>::empty(),
    {
        let keys = KeyStates { pressed: Vec::new() };
        assert(keys@ =~= Set::<Seq<char>>::empty());
        keys
    }

    /// Whether the key `key_code` is held down.
    pub fn is_pressed(&self, key_code: &str) -> (held: bool)
        ensures
            held == self@.contains(key_code@),
    {
        let code = key_code.to_owned();
        let mut i: usize = 0;
        while i < self.pressed.len()
            invariant
                i <= self.pressed.len(),
                code@ == key_code@,
                forall|j: int| 0 <= j < i ==> (#[trigger] self.pressed@[j])@ != key_code@,
            decreases self.pressed.len() - i,
        {
            if self.pressed[i] == code {
                return true;
            }
            i += 1;
        }
        false
    }

    /// The key `key_code` goes down. Says whether it was up before: whether
    /// those who wait for a key press are to be told.
    pub fn handle_key_press(&mut self, key_code: &str) -> (fresh: bool)
        ensures
            fresh == !old(self)@.contains(key_code@),
            final(self)@ == old(self)@.insert(key_code@),
    {
        if self.is_pressed(key_code) {
            assert(self@ =~= old(self)@.insert(key_code@));
            false
        } else {
            self.pressed.push(key_code.to_owned());
            proof {
                let before = old(self).pressed@;
                let after = self.pressed@;
                assert forall|code: Seq<char>| listed(after, code) <==> (code == key_code@
                    || listed(before, code)) by {
                    if listed(before, code) {
                        let i = choose|i: int| 0 <= i < before.len() && (#[trigger] before[i])@ == code;
                        assert(after[i]@ == code);
                    }
                    if code == key_code@ {
                        assert(after[after.len() - 1]@ == code);
                    }
                    if listed(after, code) {
                        let i = choose|i: int| 0 <= i < after.len() && (#[trigger] after[i])@ == code;
                        if i < before.len() {
                            assert(before[i]@ == code);
                        }
                    }
                }
                assert(self@ =~= old(self)@.insert(key_code@));
            }
            true
        }
    }

    /// The key `key_code` goes up.
    pub fn handle_key_release(&mut self, key_code: &str)
        ensures
            final(self)@ == old(self)@.remove(key_code@),
    {
        let code = key_code.to_owned();
        let ghost before = self.pressed@;
        let ghost mut k: int = 0;
        let mut i: usize = 0;
        while i < self.pressed.len()
            invariant
                0 <= k <= before.len(),
                i <= self.pressed.len(),
                code@ == key_code@,
                self.pressed@.len() - i == before.len() - k,
                forall|j: int| 0 <= j < i ==> (#[trigger] self.pressed@[j])@ != key_code@,
                forall|j: int| 0 <= j < i ==> listed(before, (#[trigger] self.pressed@[j])@),
                forall|j: int|
                    i <= j < self.pressed@.len() ==> (#[trigger] self.pressed@[j]) == before[j - i
                        + k],
                forall|c: Seq<char>|
                    c != key_code@ && listed(before.take(k), c) ==> #[trigger] listed(
                        self.pressed@.take(i as int),
                        c,
                    ),
            decreases before.len() - k,
        {
            let ghost now = self.pressed@;
            assert(now[i as int] == before[k]);
            if self.pressed[i] == code {
                self.pressed.remove(i);
                proof {
                    assert(self.pressed@.take(i as int) =~= now.take(i as int));
                    assert forall|c: Seq<char>|
                        c != key_code@ && listed(before.take(k + 1), c) implies #[trigger] listed(
                        self.pressed@.take(i as int),
                        c,
                    ) by {
                        let w = choose|w: int|
                            0 <= w < before.take(k + 1).len() && (#[trigger] before.take(k + 1)[w])@
                                == c;
                        assert(before.take(k)[w]@ == c);
                        assert(listed(before.take(k), c));
                        assert(listed(now.take(i as int), c));
                    }
                }
            } else {
                proof {
                    assert(before[k]@ == now[i as int]@);
                    assert forall|c: Seq<char>|
                        c != key_code@ && listed(before.take(k + 1), c) implies #[trigger] listed(
                        now.take(i + 1),
                        c,
                    ) by {
                        let w = choose|w: int|
                            0 <= w < before.take(k + 1).len() && (#[trigger] before.take(k + 1)[w])@
                                == c;
                        if w < k {
                            assert(before.take(k)[w]@ == c);
                            assert(listed(before.take(k), c));
                            assert(listed(now.take(i as int), c));
                            let v = choose|v: int|
                                0 <= v < now.take(i as int).len() && (#[trigger] now.take(
                                    i as int,
                                )[v])@ == c;
                            assert(now.take(i + 1)[v]@ == c);
                        } else {
                            assert(now.take(i + 1)[i as int]@ == c);
                        }
                    }
                }
                i += 1;
            }
            proof {
                k = k + 1;
            }
        }
        proof {
            let after = self.pressed@;
            assert(after.take(i as int) =~= after);
            assert(before.take(k) =~= before);
            assert forall|c: Seq<char>| listed(after, c) <==> (c != key_code@ && listed(before, c)) by {
                if listed(after, c) {
                    let j = choose|j: int| 0 <= j < after.len() && (#[trigger] after[j])@ == c;
                    assert(listed(before, after[j]@));
                }
            }
            assert(self@ =~= old(self)@.remove(key_code@));
        }
    }

    /// The mouse button `button` goes down. Says whether it is a button with
    /// a code that was up before.
    pub fn handle_mouse_press(&mut self, button: i16) -> (fresh: bool)
        ensures
            match button_code(button) {
                Some(code) => fresh == !old(self)@.contains(code) && final(self)@ == old(self)@.insert(
                    code,
                ),
                None => !fresh && final(self)@ == old(self)@,
            },
    {
        match get_mouse_button(button) {
            Some(code) => self.handle_key_press(code.as_str()),
            None => false,
        }
    }

    /// The mouse button `button` goes up. Says whether it is a button with a
    /// code.
    pub fn handle_mouse_release(&mut self, button: i16) -> (known: bool)
        ensures
            match button_code(button) {
                Some(code) => known && final(self)@ == old(self)@.remove(code),
                None => !known && final(self)@ == old(self)@,
            },
    {
        match get_mouse_button(button) {
            Some(code) => {
                self.handle_key_release(code.as_str());
                true
            },
            None => false,
        }
    }
}

/// The code of the mouse button with the number `button`: the left, the
/// middle and the right button have one.
pub fn get_mouse_button(button: i16) -> (code: Option<String>)
    ensures
        match code {
            Some(c) => button_code(button) == Some(c@),
            None => button_code(button).is_none(),
        },
{
    match button {
        0 => Some(String::from_str("MouseLeft")),
        1 => Some(String::from_str("MouseMiddle")),
        2 => Some(String::from_str("MouseRight")),
        _ => None,
    }
}

} // verus!
