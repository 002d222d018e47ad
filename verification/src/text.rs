//! Text as sequences of characters: trimming, splitting into lines and into
//! words, and the conversions from and to strings.

use vstd::prelude::*;

verus! {

/// Whether `char::is_whitespace` accepts `c`: whether the character has the
/// Unicode property White_Space.
pub uninterp spec fn is_whitespace(c: char) -> bool;

/// `char::is_whitespace` is a function of the character alone; its result is
/// given the name `is_whitespace`, and nothing more is claimed of it.
pub assume_specification[ char::is_whitespace ](c: char) -> (white: bool)
    ensures
        white == is_whitespace(c),
;

/// `String::push` appends the character to the end of the string.
pub assume_specification[ String::push ](s: &mut String, c: char)
    ensures
        final(s)@ == old(s)@.push(c),
;

/// `s` without the whitespace at its start.
pub open spec fn trim_start_spec(s: Seq<char>) -> Seq<char>
    decreases s.len(),
{
    if s.len() > 0 && is_whitespace(s.first()) {
        trim_start_spec(s.drop_first())
    } else {
        s
    }
}

/// `s` without the whitespace at its end.
pub open spec fn trim_end_spec(s: Seq<char>) -> Seq<char>
    decreases s.len(),
{
    if s.len() > 0 && is_whitespace(s.last()) {
        trim_end_spec(s.drop_last())
    } else {
        s
    }
}

/// `s` without the whitespace at its start and at its end.
pub open spec fn trim_spec(s: Seq<char>) -> Seq<char> {
    trim_end_spec(trim_start_spec(s))
}

/// The index of the first `c` in `s`, or the length of `s` where there is
/// none.
pub open spec fn find_spec(s: Seq<char>, c: char) -> int
    decreases s.len(),
{
    if s.len() == 0 || s.first() == c {
        0
    } else {
        1 + find_spec(s.drop_first(), c)
    }
}

/// The lines of `text`: the stretches between line feeds. A line feed at the
/// very end opens no further line.
pub open spec fn lines_spec(text: Seq<char>) -> Seq<Seq<char>>
    decreases text.len(),
{
    if text.len() == 0 {
        Seq::empty()
    } else {
        let end = find_spec(text, '\n');
        if 0 <= end < text.len() {
            seq![text.take(end)] + lines_spec(text.skip(end + 1))
        } else {
            seq![text]
        }
    }
}

/// The characters at the start of `s` up to the first whitespace.
pub open spec fn word_spec(s: Seq<char>) -> Seq<char>
    decreases s.len(),
{
    if s.len() > 0 && !is_whitespace(s.first()) {
        seq![s.first()] + word_spec(s.drop_first())
    } else {
        Seq::empty()
    }
}

/// The word of `s` with the number `n`, counted from zero: words are the
/// stretches without whitespace.
pub open spec fn token_spec(s: Seq<char>, n: nat) -> Option<Seq<char>>
    decreases n,
{
    let rest = trim_start_spec(s);
    if rest.len() == 0 {
        None
    } else if n == 0 {
        Some(word_spec(rest))
    } else {
        token_spec(rest.skip(word_spec(rest).len() as int), (n - 1) as nat)
    }
}

/// What each of the rows holds.
pub open spec fn rows(v: Seq<Vec<char>>) -> Seq<Seq<char>> {
    Seq::new(v.len(), |i: int| v[i]@)
}

/// The characters of `s`.
pub fn to_chars(s: &str) -> (v: Vec<char>)
    ensures
        v@ == s@,
{
    let mut v: Vec<char> = Vec::new();
    for c in it: s.chars()
        invariant
            v@ == it.seq().take(it.index() as int),
            it.seq() == s@,
    {
        v.push(c);
        proof {
            assert(it.seq().take(it.index() + 1) =~= it.seq().take(it.index() as int).push(c));
        }
    }
    assert(v@ =~= s@);
    v
}

/// The string made of the characters of `v`.
pub fn from_chars(v: &Vec<char>) -> (s: String)
    ensures
        s@ == v@,
{
    let mut s = String::new();
    let mut i: usize = 0;
    while i < v.len()
        invariant
            i <= v.len(),
            s@ == v@.take(i as int),
        decreases v.len() - i,
    {
        s.push(v[i]);
        proof {
            assert(v@.take(i + 1) =~= v@.take(i as int).push(v@[i as int]));
        }
        i += 1;
    }
    assert(v@.take(i as int) =~= v@);
    s
}

/// The characters of `s` from index `from` up to, but without, index `to`.
pub fn slice_of(s: &Vec<char>, from: usize, to: usize) -> (part: Vec<char>)
    requires
        from <= to <= s.len(),
    ensures
        part@ == s@.subrange(from as int, to as int),
{
    let mut part: Vec<char> = Vec::new();
    let mut i: usize = from;
    while i < to
        invariant
            from <= i <= to <= s.len(),
            part@ == s@.subrange(from as int, i as int),
        decreases to - i,
    {
        part.push(s[i]);
        proof {
            assert(s@.subrange(from as int, i + 1) =~= s@.subrange(from as int, i as int).push(
                s@[i as int],
            ));
        }
        i += 1;
    }
    part
}

/// Appends the characters of `more` to `s`.
pub fn append(s: &mut Vec<char>, more: &Vec<char>)
    ensures
        final(s)@ == old(s)@ + more@,
{
    let mut i: usize = 0;
    while i < more.len()
        invariant
            i <= more.len(),
            s@ == old(s)@ + more@.take(i as int),
        decreases more.len() - i,
    {
        s.push(more[i]);
        proof {
            assert(more@.take(i + 1) =~= more@.take(i as int).push(more@[i as int]));
            assert(s@ =~= old(s)@ + more@.take(i + 1));
        }
        i += 1;
    }
    proof {
        assert(more@.take(i as int) =~= more@);
    }
}

/// Whether `a` and `b` hold the same characters.
pub fn same(a: &Vec<char>, b: &Vec<char>) -> (equal: bool)
    ensures
        equal == (a@ == b@),
{
    if a.len() != b.len() {
        return false;
    }
    let mut i: usize = 0;
    while i < a.len()
        invariant
            i <= a.len(),
            a.len() == b.len(),
            forall|j: int| 0 <= j < i ==> a@[j] == b@[j],
        decreases a.len() - i,
    {
        if a[i] != b[i] {
            return false;
        }
        i += 1;
    }
    assert(a@ =~= b@);
    true
}

/// Whether `s` begins with the characters of `prefix`.
pub fn starts_with(s: &Vec<char>, prefix: &Vec<char>) -> (begins: bool)
    ensures
        begins == prefix@.is_prefix_of(s@),
{
    if prefix.len() > s.len() {
        return false;
    }
    let mut i: usize = 0;
    while i < prefix.len()
        invariant
            i <= prefix.len() <= s.len(),
            forall|j: int| 0 <= j < i ==> s@[j] == prefix@[j],
        decreases prefix.len() - i,
    {
        if s[i] != prefix[i] {
            assert(s@.subrange(0, prefix@.len() as int)[i as int] != prefix@[i as int]);
            return false;
        }
        i += 1;
    }
    assert(s@.subrange(0, prefix@.len() as int) =~= prefix@);
    true
}

/// The index of the first `c` at or after `from`, or the length of `s` where
/// there is none.
pub fn find(s: &Vec<char>, from: usize, c: char) -> (at: usize)
    requires
        from <= s.len(),
    ensures
        from <= at <= s.len(),
        at == from + find_spec(s@.skip(from as int), c),
{
    let mut i: usize = from;
    while i < s.len() && s[i] != c
        invariant
            from <= i <= s.len(),
            find_spec(s@.skip(from as int), c) == (i - from) + find_spec(s@.skip(i as int), c),
        decreases s.len() - i,
    {
        proof {
            assert(s@.skip(i as int).drop_first() =~= s@.skip(i + 1));
        }
        i += 1;
    }
    i
}

/// `s` without the whitespace at its end.
pub fn trim_end(s: &Vec<char>) -> (t: Vec<char>)
    ensures
        t@ == trim_end_spec(s@),
{
    let mut end: usize = s.len();
    proof {
        assert(s@.take(end as int) =~= s@);
    }
    while end > 0 && s[end - 1].is_whitespace()
        invariant
            end <= s.len(),
            trim_end_spec(s@) == trim_end_spec(s@.take(end as int)),
        decreases end,
    {
        proof {
            assert(s@.take(end as int).drop_last() =~= s@.take(end - 1));
        }
        end -= 1;
    }
    slice_of(s, 0, end)
}

/// `s` without the whitespace at its start and at its end.
pub fn trim(s: &Vec<char>) -> (t: Vec<char>)
    ensures
        t@ == trim_spec(s@),
{
    let mut start: usize = 0;
    proof {
        assert(s@.skip(0) =~= s@);
    }
    while start < s.len() && s[start].is_whitespace()
        invariant
            start <= s.len(),
            trim_start_spec(s@) == trim_start_spec(s@.skip(start as int)),
        decreases s.len() - start,
    {
        proof {
            assert(s@.skip(start as int).drop_first() =~= s@.skip(start + 1));
        }
        start += 1;
    }
    let rest = slice_of(s, start, s.len());
    proof {
        assert(rest@ =~= s@.skip(start as int));
    }
    trim_end(&rest)
}

/// The lines of `text`.
pub fn split_lines(text: &Vec<char>) -> (lines: Vec<Vec<char>>)
    ensures
        rows(lines@) == lines_spec(text@),
{
    let mut lines: Vec<Vec<char>> = Vec::new();
    let mut pos: usize = 0;
    proof {
        assert(text@.skip(0) =~= text@);
        assert(rows(lines@) =~= Seq::<Seq<char>>::empty());
    }
    while pos < text.len()
        invariant
            pos <= text.len(),
            lines_spec(text@) == rows(lines@) + lines_spec(text@.skip(pos as int)),
        decreases text.len() - pos,
    {
        let end = find(text, pos, '\n');
        let line = slice_of(text, pos, end);
        let ghost rest = text@.skip(pos as int);
        let ghost before = rows(lines@);
        lines.push(line);
        proof {
            assert(rows(lines@) =~= before.push(line@));
            assert(line@ =~= rest.take(end - pos));
            if end < text.len() {
                assert(rest.skip(end - pos + 1) =~= text@.skip(end + 1));
                assert(before + (seq![line@] + lines_spec(text@.skip(end + 1))) =~= before.push(
                    line@,
                ) + lines_spec(text@.skip(end + 1)));
            } else {
                assert(rest.take(end - pos) =~= rest);
                assert(text@.skip(text.len() as int) =~= Seq::<char>::empty());
                assert(before + seq![line@] =~= before.push(line@) + Seq::<Seq<char>>::empty());
            }
        }
        pos = if end < text.len() {
            end + 1
        } else {
            end
        };
    }
    proof {
        assert(text@.skip(pos as int) =~= Seq::<char>::empty());
        assert(rows(lines@) + Seq::<Seq<char>>::empty() =~= rows(lines@));
    }
    lines
}

/// The word of `s` with the number `n`, counted from zero.
pub fn token(s: &Vec<char>, n: usize) -> (word: Option<Vec<char>>)
    ensures
        match word {
            Some(w) => token_spec(s@, n as nat) == Some(w@),
            None => token_spec(s@, n as nat).is_none(),
        },
{
    let mut pos: usize = 0;
    let mut left: usize = n;
    proof {
        assert(s@.skip(0) =~= s@);
    }
    loop
        invariant
            pos <= s.len(),
            left <= n,
            token_spec(s@, n as nat) == token_spec(s@.skip(pos as int), left as nat),
        decreases left,
    {
        let ghost from = pos;
        while pos < s.len() && s[pos].is_whitespace()
            invariant
                from <= pos <= s.len(),
                trim_start_spec(s@.skip(from as int)) == trim_start_spec(s@.skip(pos as int)),
            decreases s.len() - pos,
        {
            proof {
                assert(s@.skip(pos as int).drop_first() =~= s@.skip(pos + 1));
            }
            pos += 1;
        }
        let ghost rest = s@.skip(pos as int);
        assert(trim_start_spec(s@.skip(from as int)) == rest);
        if pos == s.len() {
            return None;
        }
        let start = pos;
        proof {
            assert(rest.take(0) =~= Seq::<char>::empty());
            assert(rest.skip(0) =~= rest);
        }
        while pos < s.len() && !s[pos].is_whitespace()
            invariant
                start <= pos <= s.len(),
                rest == s@.skip(start as int),
                word_spec(rest) == rest.take(pos - start) + word_spec(s@.skip(pos as int)),
            decreases s.len() - pos,
        {
            proof {
                assert(s@.skip(pos as int).drop_first() =~= s@.skip(pos + 1));
                assert(rest.take(pos - start) + (seq![s@[pos as int]] + word_spec(
                    s@.skip(pos + 1),
                )) =~= rest.take(pos + 1 - start) + word_spec(s@.skip(pos + 1)));
            }
            pos += 1;
        }
        proof {
            assert(word_spec(s@.skip(pos as int)) =~= Seq::<char>::empty());
            assert(word_spec(rest) =~= rest.take(pos - start));
            assert(rest.skip(pos - start) =~= s@.skip(pos as int));
        }
        if left == 0 {
            let w = slice_of(s, start, pos);
            assert(w@ =~= rest.take(pos - start));
            return Some(w);
        }
        left -= 1;
    }
}

} // verus!
