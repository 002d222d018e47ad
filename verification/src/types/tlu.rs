//! Shader descriptions: a text of sections, one with parameters, one with the
//! vertex shader and one with the fragment shader.
//!
//! A line that begins with `--` is a comment. A line that begins with `@`
//! opens a section: `@tlu` holds one parameter a line, a name and a value with
//! a space between them; `@vert` and `@frag` hold shader source. In shader
//! source a line that begins with `#inc` names a file whose lines take its
//! place.

use vstd::prelude::*;
use crate::text::{
    append, find, find_spec, from_chars, lines_spec, rows, same, slice_of, split_lines,
    starts_with, to_chars, token, token_spec, trim, trim_end, trim_end_spec, trim_spec,
};

verus! {

/// The section that a line belongs to.
#[derive(Clone, Copy, Debug, PartialEq, Eq, Structural)]
pub enum Section {
    /// Before the first section line.
    Outside,
    /// The parameters.
    Tlu,
    /// The vertex shader.
    Vert,
    /// The fragment shader.
    Frag,
    /// A section of another name, which is passed over.
    Other,
}

/// What a shader description holds.
pub struct TluView {
    /// The parameters, each name once, in the order in which the names first
    /// came.
    pub params: Seq<(Seq<char>, Seq<char>)>,
    pub vert: Seq<char>,
    pub frag: Seq<char>,
}

/// What has been read of a description so far.
pub struct Draft {
    pub section: Section,
    pub params: Seq<(Seq<char>, Seq<char>)>,
    pub vert: Seq<char>,
    pub frag: Seq<char>,
    /// Whether every `#inc` line so far named a file.
    pub named: bool,
}

pub open spec fn comment_mark() -> Seq<char> {
    seq!['-', '-']
}

pub open spec fn section_mark() -> Seq<char> {
    seq!['@']
}

pub open spec fn inc_mark() -> Seq<char> {
    seq!['#', 'i', 'n', 'c']
}

pub open spec fn tlu_name() -> Seq<char> {
    seq!['@', 't', 'l', 'u']
}

pub open spec fn vert_name() -> Seq<char> {
    seq!['@', 'v', 'e', 'r', 't']
}

pub open spec fn frag_name() -> Seq<char> {
    seq!['@', 'f', 'r', 'a', 'g']
}

/// The section that the section line `line` opens.
pub open spec fn section_of(line: Seq<char>) -> Section {
    if line == tlu_name() {
        Section::Tlu
    } else if line == vert_name() {
        Section::Vert
    } else if line == frag_name() {
        Section::Frag
    } else {
        Section::Other
    }
}

/// The name and the value of a parameter line: what stands before the first
/// space and what stands after it, both trimmed. A line without a space holds
/// no parameter.
pub open spec fn param_of(line: Seq<char>) -> Option<(Seq<char>, Seq<char>)> {
    let at = find_spec(line, ' ');
    if 0 <= at < line.len() {
        Some((trim_spec(line.take(at)), trim_spec(line.skip(at + 1))))
    } else {
        None
    }
}

/// The index of the first pair whose name is `key`, or the number of pairs
/// where there is none.
pub open spec fn key_index(pairs: Seq<(Seq<char>, Seq<char>)>, key: Seq<char>) -> int
    decreases pairs.len(),
{
    if pairs.len() == 0 || pairs.first().0 == key {
        0
    } else {
        1 + key_index(pairs.drop_first(), key)
    }
}

/// The parameters after `key` was set to `value`: a name that is there keeps
/// its place and takes the new value, a new name goes to the end.
pub open spec fn set_param(
    pairs: Seq<(Seq<char>, Seq<char>)>,
    key: Seq<char>,
    value: Seq<char>,
) -> Seq<(Seq<char>, Seq<char>)> {
    let at = key_index(pairs, key);
    if 0 <= at < pairs.len() {
        pairs.update(at, (key, value))
    } else {
        pairs.push((key, value))
    }
}

/// The content of the file `name` among `files`, pairs of a name and a
/// content: that of the last pair with the name.
pub open spec fn file_named(files: Seq<(Seq<char>, Seq<char>)>, name: Seq<char>) -> Option<
    Seq<char>,
>
    decreases files.len(),
{
    if files.len() == 0 {
        None
    } else if files.last().0 == name {
        Some(files.last().1)
    } else {
        file_named(files.drop_last(), name)
    }
}

/// The lines, each trimmed and ended by a line feed, one after the other.
pub open spec fn joined(lines: Seq<Seq<char>>) -> Seq<char>
    decreases lines.len(),
{
    if lines.len() == 0 {
        Seq::empty()
    } else {
        joined(lines.drop_last()) + trim_spec(lines.last()) + seq!['\n']
    }
}

/// What the file `name` adds to shader source: its lines, where `files` has
/// it, else nothing.
pub open spec fn inclusion(files: Option<Seq<(Seq<char>, Seq<char>)>>, name: Seq<char>) -> Seq<
    char,
> {
    match files {
        Some(list) => match file_named(list, name) {
            Some(content) => joined(lines_spec(content)),
            None => Seq::empty(),
        },
        None => Seq::empty(),
    }
}

/// Shader source after the trimmed line `line`, and whether the line, if it
/// is an `#inc` line, names a file.
pub open spec fn extended(
    source: Seq<char>,
    line: Seq<char>,
    files: Option<Seq<(Seq<char>, Seq<char>)>>,
) -> (Seq<char>, bool) {
    if line.len() == 0 {
        (source, true)
    } else if inc_mark().is_prefix_of(line) {
        match token_spec(line, 1) {
            Some(name) => (source + inclusion(files, name), true),
            None => (source, false),
        }
    } else {
        (source + line + seq!['\n'], true)
    }
}

/// The draft after the trimmed line `line`.
pub open spec fn step(
    draft: Draft,
    line: Seq<char>,
    files: Option<Seq<(Seq<char>, Seq<char>)>>,
) -> Draft {
    if comment_mark().is_prefix_of(line) {
        draft
    } else if section_mark().is_prefix_of(line) {
        Draft { section: section_of(line), ..draft }
    } else {
        match draft.section {
            Section::Tlu => match param_of(line) {
                Some((key, value)) => Draft {
                    params: set_param(draft.params, key, value),
                    ..draft
                },
                None => draft,
            },
            Section::Vert => {
                let (source, named) = extended(draft.vert, line, files);
                Draft { vert: source, named: draft.named && named, ..draft }
            },
            Section::Frag => {
                let (source, named) = extended(draft.frag, line, files);
                Draft { frag: source, named: draft.named && named, ..draft }
            },
            _ => draft,
        }
    }
}

/// The draft before the first line.
pub open spec fn blank() -> Draft {
    Draft {
        section: Section::Outside,
        params: Seq::empty(),
        vert: Seq::empty(),
        frag: Seq::empty(),
        named: true,
    }
}

/// The draft after the lines `lines`, each trimmed, first to last.
pub open spec fn read(lines: Seq<Seq<char>>, files: Option<Seq<(Seq<char>, Seq<char>)>>) -> Draft
    decreases lines.len(),
{
    if lines.len() == 0 {
        blank()
    } else {
        step(read(lines.drop_last(), files), trim_spec(lines.last()), files)
    }
}

/// The description that `text` holds, with the files `files` to draw on.
pub open spec fn parsed(text: Seq<char>, files: Option<Seq<(Seq<char>, Seq<char>)>>) -> TluView {
    let draft = read(lines_spec(text), files);
    TluView {
        params: draft.params,
        vert: trim_end_spec(draft.vert),
        frag: trim_end_spec(draft.frag),
    }
}

/// Whether every `#inc` line in the shader source of `text` names a file.
pub open spec fn directives_named(text: Seq<char>) -> bool {
    read(lines_spec(text), None).named
}

/// The names and values, or names and contents, of the pairs.
pub open spec fn pair_views(pairs: Seq<(String, String)>) -> Seq<(Seq<char>, Seq<char>)> {
    Seq::new(pairs.len(), |i: int| (pairs[i].0@, pairs[i].1@))
}

/// The files handed to the parser, as names and contents.
pub open spec fn file_views(files: Option<Vec<(String, String)>>) -> Option<
    Seq<(Seq<char>, Seq<char>)>,
> {
    match files {
        Some(list) => Some(pair_views(list@)),
        None => None,
    }
}

/// Which section is open and whether the `#inc` lines name files depends on
/// the text alone, not on the files at hand.
pub proof fn lemma_files_do_not_matter(
    lines: Seq<Seq<char>>,
    files: Option<Seq<(Seq<char>, Seq<char>)>>,
)
    ensures
        read(lines, files).section == read(lines, None).section,
        read(lines, files).named == read(lines, None).named,
        read(lines, files).params == read(lines, None).params,
    decreases lines.len(),
{
    if lines.len() > 0 {
        lemma_files_do_not_matter(lines.drop_last(), files);
    }
}

/// No two pairs have the same name.
pub open spec fn distinct_keys(pairs: Seq<(Seq<char>, Seq<char>)>) -> bool {
    forall|i: int, j: int|
        0 <= i < pairs.len() && 0 <= j < pairs.len() && i != j ==> (#[trigger] pairs[i]).0
            != (#[trigger] pairs[j]).0
}

/// `key_index` finds the first pair with the name, and runs to the end of
/// the pairs exactly where no pair has it.
pub proof fn lemma_key_index(pairs: Seq<(Seq<char>, Seq<char>)>, key: Seq<char>)
    ensures
        0 <= key_index(pairs, key) <= pairs.len(),
        key_index(pairs, key) < pairs.len() ==> pairs[key_index(pairs, key)].0 == key,
        forall|j: int| 0 <= j < key_index(pairs, key) ==> (#[trigger] pairs[j]).0 != key,
    decreases pairs.len(),
{
    if pairs.len() > 0 && pairs.first().0 != key {
        let rest = pairs.drop_first();
        lemma_key_index(rest, key);
        assert forall|j: int| 0 <= j < key_index(pairs, key) implies (#[trigger] pairs[j]).0
            != key by {
            if j > 0 {
                assert(rest[j - 1] == pairs[j]);
            }
        }
    }
}

/// Setting a parameter keeps every name single, gives the name the new
/// value, and leaves the value of every other name as it was.
pub proof fn lemma_set_param(
    pairs: Seq<(Seq<char>, Seq<char>)>,
    key: Seq<char>,
    value: Seq<char>,
    other: Seq<char>,
)
    requires
        distinct_keys(pairs),
    ensures
        distinct_keys(set_param(pairs, key, value)),
        key_index(set_param(pairs, key, value), key) < set_param(pairs, key, value).len(),
        set_param(pairs, key, value)[key_index(set_param(pairs, key, value), key)].1 == value,
        other != key && key_index(pairs, other) < pairs.len() ==> key_index(
            set_param(pairs, key, value),
            other,
        ) == key_index(pairs, other) && set_param(pairs, key, value)[key_index(pairs, other)]
            == pairs[key_index(pairs, other)],
        other != key && key_index(pairs, other) == pairs.len() ==> key_index(
            set_param(pairs, key, value),
            other,
        ) == set_param(pairs, key, value).len(),
{
    let after = set_param(pairs, key, value);
    let at = key_index(pairs, key);
    lemma_key_index(pairs, key);
    lemma_key_index(pairs, other);
    lemma_key_index(after, key);
    lemma_key_index(after, other);
    assert forall|i: int, j: int|
        0 <= i < after.len() && 0 <= j < after.len() && i != j implies (#[trigger] after[i]).0
        != (#[trigger] after[j]).0 by {
        if at < pairs.len() {
            assert(pairs[i].0 != pairs[j].0);
        } else if i < pairs.len() && j < pairs.len() {
            assert(pairs[i].0 != pairs[j].0);
        } else if i < pairs.len() {
            assert(pairs[i].0 != key);
        } else {
            assert(pairs[j].0 != key);
        }
    }
    let found = key_index(after, key);
    let place = if at < pairs.len() {
        at
    } else {
        pairs.len() as int
    };
    assert(after[place].0 == key);
    if found > place {
        assert(after[place].0 != key);
    }
    if found < place {
        assert(pairs[found].0 != key);
    }
    if other != key {
        let before = key_index(pairs, other);
        let now = key_index(after, other);
        if before < pairs.len() {
            assert(after[before].0 == other);
            if now < before {
                assert(pairs[now].0 != other);
            }
            if before < now {
                assert(after[before].0 != other);
            }
        } else if now < after.len() {
            if now < pairs.len() {
                assert(pairs[now].0 != other);
            }
        }
    }
}

/// Every parameter name of a description stands once among its parameters.
pub proof fn lemma_params_distinct(
    lines: Seq<Seq<char>>,
    files: Option<Seq<(Seq<char>, Seq<char>)>>,
)
    ensures
        distinct_keys(read(lines, files).params),
    decreases lines.len(),
{
    if lines.len() > 0 {
        lemma_params_distinct(lines.drop_last(), files);
        let draft = read(lines.drop_last(), files);
        let line = trim_spec(lines.last());
        match param_of(line) {
            Some((key, value)) => {
                lemma_set_param(draft.params, key, value, key);
            },
            None => {},
        }
    }
}

/// A shader description.
pub struct Tlu {
    param: Vec<(String, String)>,
    vert: String,
    frag: String,
}

impl View for Tlu {
    type V = TluView;

    closed spec fn view(&self) -> TluView {
        TluView { params: pair_views(self.param@), vert: self.vert@, frag: self.frag@ }
    }
}

impl Tlu {
    /// Reads the description `text`. Where `includes` is given, the files that
    /// `#inc` lines name are looked up in it by name; a file that is not there
    /// adds nothing.
    pub fn parse(text: String, includes: Option<Vec<(String, String)>>) -> (tlu: Tlu)
        requires
            directives_named(text@),
        ensures
            tlu@ == parsed(text@, file_views(includes)),
            distinct_keys(tlu@.params),
    {
        proof {
            lemma_params_distinct(lines_spec(text@), file_views(includes));
        }
        let (tlu, _named) = Self::scan(text.as_str(), &includes);
        tlu
    }

    /// Whether every `#inc` line in the shader source of `text` names a
    /// file: whether `parse` reads the text.
    pub fn names_every_file(text: &str) -> (named: bool)
        ensures
            named == directives_named(text@),
    {
        let (_tlu, named) = Self::scan(text, &None);
        named
    }

    /// Reads the description `text` as `parse` does, where every `#inc` line
    /// in its shader source names a file; else there is no description.
    pub fn try_parse(text: String, includes: Option<Vec<(String, String)>>) -> (tlu: Option<Tlu>)
        ensures
            match tlu {
                Some(t) => directives_named(text@) && t@ == parsed(text@, file_views(includes))
                    && distinct_keys(t@.params),
                None => !directives_named(text@),
            },
    {
        if Self::names_every_file(text.as_str()) {
            Some(Self::parse(text, includes))
        } else {
            None
        }
    }

    /// The value of the parameter `param`.
    pub fn get_param(&self, param: &str) -> (value: Option<&String>)
        ensures
            match value {
                Some(v) => {
                    let at = key_index(self@.params, param@);
                    0 <= at < self@.params.len() && v@ == self@.params[at].1
                },
                None => key_index(self@.params, param@) == self@.params.len(),
            },
    {
        let name = param.to_owned();
        let ghost pairs = pair_views(self.param@);
        let mut i: usize = 0;
        proof {
            assert(pairs.skip(0) =~= pairs);
        }
        while i < self.param.len()
            invariant
                i <= self.param.len(),
                pairs == pair_views(self.param@),
                name@ == param@,
                key_index(pairs, param@) == i + key_index(pairs.skip(i as int), param@),
            decreases self.param.len() - i,
        {
            if self.param[i].0 == name {
                return Some(&self.param[i].1);
            }
            proof {
                assert(pairs.skip(i as int).drop_first() =~= pairs.skip(i + 1));
            }
            i += 1;
        }
        None
    }

    /// The parameters, as pairs of a name and a value.
    pub fn params(&self) -> (pairs: &Vec<(String, String)>)
        ensures
            pair_views(pairs@) == self@.params,
    {
        &self.param
    }

    /// The source of the vertex shader.
    pub fn vert(&self) -> (source: &str)
        ensures
            source@ == self@.vert,
    {
        self.vert.as_str()
    }

    /// The source of the fragment shader.
    pub fn frag(&self) -> (source: &str)
        ensures
            source@ == self@.frag,
    {
        self.frag.as_str()
    }

    /// The name and the value that the parameter line `line` holds.
    #[verifier::rlimit(40)]
    pub fn parse_param(line: &Vec<char>) -> (pair: Option<(Vec<char>, Vec<char>)>)
        ensures
            match pair {
                Some((key, value)) => param_of(line@) == Some((key@, value@)),
                None => param_of(line@).is_none(),
            },
    {
        let at = find(line, 0, ' ');
        proof {
            assert(line@.skip(0) =~= line@);
        }
        if at < line.len() {
            let key = slice_of(line, 0, at);
            let value = slice_of(line, at + 1, line.len());
            proof {
                assert(key@ =~= line@.take(at as int));
                assert(value@ =~= line@.skip(at + 1));
            }
            Some((trim(&key), trim(&value)))
        } else {
            None
        }
    }

    /// Handles the trimmed line `line` of shader source where it is an `#inc`
    /// line: the lines of the file it names, each trimmed, are appended to
    /// `section`. Says whether the line is an `#inc` line and, if so, whether
    /// it names a file.
    pub fn include_file(
        line: &Vec<char>,
        section: &mut Vec<char>,
        includes: &Option<Vec<(String, String)>>,
    ) -> (out: (bool, bool))
        ensures
            out.0 == inc_mark().is_prefix_of(line@),
            out.1 == (out.0 ==> token_spec(line@, 1).is_some()),
            final(section)@ == if out.0 && out.1 {
                old(section)@ + inclusion(file_views(*includes), token_spec(line@, 1).unwrap())
            } else {
                old(section)@
            },
    {
        let mark: Vec<char> = vec!['#', 'i', 'n', 'c'];
        assert(mark@ =~= inc_mark());
        if !starts_with(line, &mark) {
            return (false, true);
        }
        match token(line, 1) {
            None => (true, false),
            Some(name) => {
                match includes {
                    Some(list) => {
                        match find_file(list, &name) {
                            Some(content) => {
                                push_lines(section, content.as_str());
                            },
                            None => {
                                assert(section@ + Seq::<char>::empty() =~= section@);
                            },
                        }
                    },
                    None => {
                        assert(section@ + Seq::<char>::empty() =~= section@);
                    },
                }
                (true, true)
            },
        }
    }

    /// Reads `text` and says whether every `#inc` line in its shader source
    /// names a file.
    fn scan(text: &str, includes: &Option<Vec<(String, String)>>) -> (out: (Tlu, bool))
        ensures
            out.0@ == parsed(text@, file_views(*includes)),
            out.1 == directives_named(text@),
    {
        let chars = to_chars(text);
        let lines = split_lines(&chars);
        let comment: Vec<char> = vec!['-', '-'];
        let at: Vec<char> = vec!['@'];
        assert(comment@ =~= comment_mark());
        assert(at@ =~= section_mark());
        let ghost files = file_views(*includes);
        let mut section = Section::Outside;
        let mut param: Vec<(String, String)> = Vec::new();
        let mut vert: Vec<char> = Vec::new();
        let mut frag: Vec<char> = Vec::new();
        let mut named = true;
        let mut i: usize = 0;
        proof {
            assert(pair_views(param@) =~= Seq::empty());
            assert(rows(lines@).take(0) =~= Seq::<Seq<char>>::empty());
        }
        while i < lines.len()
            invariant
                i <= lines.len(),
                rows(lines@) == lines_spec(text@),
                files == file_views(*includes),
                comment@ == comment_mark(),
                at@ == section_mark(),
                (Draft { section, params: pair_views(param@), vert: vert@, frag: frag@, named })
                    == read(rows(lines@).take(i as int), files),
            decreases lines.len() - i,
        {
            let line = trim(&lines[i]);
            proof {
                assert(rows(lines@).take(i + 1).drop_last() =~= rows(lines@).take(i as int));
                assert(rows(lines@).take(i + 1).last() == lines@[i as int]@);
            }
            if starts_with(&line, &comment) {
            } else if starts_with(&line, &at) {
                section = section_named(&line);
            } else {
                match section {
                    Section::Tlu => {
                        match Self::parse_param(&line) {
                            Some((key, value)) => {
                                set(&mut param, &key, &value);
                            },
                            None => {},
                        }
                    },
                    Section::Vert => {
                        if line.len() > 0 {
                            let (directive, ok) = Self::include_file(&line, &mut vert, includes);
                            named = named && ok;
                            if !directive {
                                let ghost before = vert@;
                                append(&mut vert, &line);
                                vert.push('\n');
                                assert(vert@ =~= before + line@ + seq!['\n']);
                            }
                        }
                    },
                    Section::Frag => {
                        if line.len() > 0 {
                            let (directive, ok) = Self::include_file(&line, &mut frag, includes);
                            named = named && ok;
                            if !directive {
                                let ghost before = frag@;
                                append(&mut frag, &line);
                                frag.push('\n');
                                assert(frag@ =~= before + line@ + seq!['\n']);
                            }
                        }
                    },
                    _ => {},
                }
            }
            i += 1;
        }
        proof {
            assert(rows(lines@).take(i as int) =~= rows(lines@));
            lemma_files_do_not_matter(lines_spec(text@), files);
        }
        let tlu = Tlu {
            param,
            vert: from_chars(&trim_end(&vert)),
            frag: from_chars(&trim_end(&frag)),
        };
        (tlu, named)
    }
}

/// The section that the section line `line` opens.
fn section_named(line: &Vec<char>) -> (section: Section)
    ensures
        section == section_of(line@),
{
    let tlu: Vec<char> = vec!['@', 't', 'l', 'u'];
    let vert: Vec<char> = vec!['@', 'v', 'e', 'r', 't'];
    let frag: Vec<char> = vec!['@', 'f', 'r', 'a', 'g'];
    assert(tlu@ =~= tlu_name());
    assert(vert@ =~= vert_name());
    assert(frag@ =~= frag_name());
    if same(line, &tlu) {
        Section::Tlu
    } else if same(line, &vert) {
        Section::Vert
    } else if same(line, &frag) {
        Section::Frag
    } else {
        Section::Other
    }
}

/// Sets the parameter `key` to `value`.
fn set(param: &mut Vec<(String, String)>, key: &Vec<char>, value: &Vec<char>)
    ensures
        pair_views(final(param)@) == set_param(pair_views(old(param)@), key@, value@),
{
    let name = from_chars(key);
    let content = from_chars(value);
    let ghost pairs = pair_views(param@);
    let mut i: usize = 0;
    proof {
        assert(pairs.skip(0) =~= pairs);
    }
    while i < param.len()
        invariant
            i <= param.len(),
            *param == *old(param),
            pairs == pair_views(param@),
            name@ == key@,
            content@ == value@,
            key_index(pairs, key@) == i + key_index(pairs.skip(i as int), key@),
        decreases param.len() - i,
    {
        if param[i].0 == name {
            param[i] = (name, content);
            proof {
                assert(pair_views(param@) =~= pairs.update(i as int, (key@, value@)));
            }
            return ;
        }
        proof {
            assert(pairs.skip(i as int).drop_first() =~= pairs.skip(i + 1));
        }
        i += 1;
    }
    param.push((name, content));
    proof {
        assert(pair_views(param@) =~= pairs.push((key@, value@)));
    }
}

/// The content of the file `name`: that of the last pair with the name.
fn find_file<'a>(files: &'a Vec<(String, String)>, name: &Vec<char>) -> (content: Option<
    &'a String,
>)
    ensures
        match content {
            Some(c) => file_named(pair_views(files@), name@) == Some(c@),
            None => file_named(pair_views(files@), name@).is_none(),
        },
{
    let wanted = from_chars(name);
    let ghost pairs = pair_views(files@);
    let mut i: usize = files.len();
    proof {
        assert(pairs.take(i as int) =~= pairs);
    }
    while i > 0
        invariant
            i <= files.len(),
            pairs == pair_views(files@),
            wanted@ == name@,
            file_named(pairs, name@) == file_named(pairs.take(i as int), name@),
        decreases i,
    {
        if files[i - 1].0 == wanted {
            return Some(&files[i - 1].1);
        }
        proof {
            assert(pairs.take(i as int).drop_last() =~= pairs.take(i - 1));
        }
        i -= 1;
    }
    None
}

/// Appends the lines of `content`, each trimmed and ended by a line feed.
fn push_lines(section: &mut Vec<char>, content: &str)
    ensures
        final(section)@ == old(section)@ + joined(lines_spec(content@)),
{
    let chars = to_chars(content);
    let lines = split_lines(&chars);
    let mut i: usize = 0;
    proof {
        assert(rows(lines@).take(0) =~= Seq::<Seq<char>>::empty());
        assert(section@ + Seq::<char>::empty() =~= section@);
    }
    while i < lines.len()
        invariant
            i <= lines.len(),
            rows(lines@) == lines_spec(content@),
            section@ == old(section)@ + joined(rows(lines@).take(i as int)),
        decreases lines.len() - i,
    {
        let line = trim(&lines[i]);
        let ghost before = section@;
        append(section, &line);
        section.push('\n');
        proof {
            assert(rows(lines@).take(i + 1).drop_last() =~= rows(lines@).take(i as int));
            assert(rows(lines@).take(i + 1).last() == lines@[i as int]@);
            assert(section@ =~= old(section)@ + joined(rows(lines@).take(i + 1)));
        }
        i += 1;
    }
    proof {
        assert(rows(lines@).take(i as int) =~= rows(lines@));
    }
}

} // verus!
