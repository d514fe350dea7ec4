//! File names: the stem and the extension of a name, and the name that a
//! path ends in.
//!
//! A name is one component of a path. Its stem and its extension are the
//! parts before and after its last `.`; a name that has no `.`, or whose only
//! `.` is its first character, is all stem. The empty name, `.` and `..` name
//! no file.
//!
//! A path is read as text. Separators and `.` components at its end are
//! passed over, so `foo.exe/` and `bin/.` end in `foo.exe` and `bin`. The
//! name that it ends in is what then follows the last `/` or `\`; manifests
//! are written for a system on which both separate directories.

use vstd::prelude::*;

verus! {

/// The two kinds of character at which a path is taken apart.
#[derive(Clone, Copy, Debug)]
pub enum Mark {
    /// `.`, between stem and extension.
    Dot,
    /// `/` or `\`, between components.
    Separator,
}

/// `c` is a character of the kind `mark`.
pub open spec fn is_mark(mark: Mark, c: char) -> bool {
    match mark {
        Mark::Dot => c == '.',
        Mark::Separator => c == '/' || c == '\\',
    }
}

/// `i` is the last position of `s` that holds a `mark`; where `s` holds none,
/// `i` is -1.
pub open spec fn is_last_mark(s: Seq<char>, mark: Mark, i: int) -> bool {
    &&& -1 <= i < s.len()
    &&& (i >= 0 ==> is_mark(mark, s[i]))
    &&& forall|j: int| i < j < s.len() ==> !is_mark(mark, #[trigger] s[j])
}

/// The last position of `s` that holds a `mark`, or -1.
pub open spec fn last_mark(s: Seq<char>, mark: Mark) -> int {
    choose|i: int| is_last_mark(s, mark, i)
}

/// `name` is a component that names a file.
pub open spec fn names_a_file(name: Seq<char>) -> bool {
    &&& name.len() > 0
    &&& name != seq!['.']
    &&& name != seq!['.', '.']
}

/// The stem of the file that `name` names, if it names one. The whole of
/// `name` is taken as one component, whatever it holds.
pub open spec fn name_stem(name: Seq<char>) -> Option<Seq<char>> {
    let dot = last_mark(name, Mark::Dot);
    if !names_a_file(name) {
        None
    } else if dot <= 0 {
        Some(name)
    } else {
        Some(name.take(dot))
    }
}

/// The extension of the file that `name` names, if it has one. The whole of
/// `name` is taken as one component, whatever it holds.
pub open spec fn name_extension(name: Seq<char>) -> Option<Seq<char>> {
    let dot = last_mark(name, Mark::Dot);
    if !names_a_file(name) || dot <= 0 {
        None
    } else {
        Some(name.skip(dot + 1))
    }
}

/// `path` ends in a separator or in a `.` component.
pub open spec fn ends_in_filler(path: Seq<char>) -> bool {
    &&& path.len() > 0
    &&& {
        ||| is_mark(Mark::Separator, path.last())
        ||| path.last() == '.' && (path.len() == 1 || is_mark(
            Mark::Separator,
            path[path.len() - 2],
        ))
    }
}

/// `path` without the separators and `.` components at its end.
pub open spec fn trimmed(path: Seq<char>) -> Seq<char>
    decreases path.len(),
{
    if ends_in_filler(path) {
        trimmed(path.drop_last())
    } else {
        path
    }
}

/// The name that `path` ends in: its final component.
pub open spec fn file_name(path: Seq<char>) -> Seq<char> {
    trimmed(path).skip(last_mark(trimmed(path), Mark::Separator) + 1)
}

/// The stem of the file that `path` names, if it names one.
pub open spec fn file_stem(path: Seq<char>) -> Option<Seq<char>> {
    name_stem(file_name(path))
}

/// At most one position is the last that holds a mark.
pub proof fn lemma_last_mark_unique(s: Seq<char>, mark: Mark, i: int, j: int)
    requires
        is_last_mark(s, mark, i),
        is_last_mark(s, mark, j),
    ensures
        i == j,
{
    if i < j {
        assert(is_mark(mark, s[j]));
    } else if j < i {
        assert(is_mark(mark, s[i]));
    }
}

/// A position that is the last to hold a mark is `last_mark`.
pub proof fn lemma_last_mark_is(s: Seq<char>, mark: Mark, i: int)
    requires
        is_last_mark(s, mark, i),
    ensures
        last_mark(s, mark) == i,
{
    lemma_last_mark_unique(s, mark, i, last_mark(s, mark));
}

/// Every text has a last position that holds a mark, unless it holds none:
/// `last_mark` is that position, or -1.
pub proof fn lemma_last_mark_exists(s: Seq<char>, mark: Mark)
    ensures
        is_last_mark(s, mark, last_mark(s, mark)),
    decreases s.len(),
{
    if s.len() == 0 {
        assert(is_last_mark(s, mark, -1));
    } else if is_mark(mark, s.last()) {
        assert(is_last_mark(s, mark, s.len() - 1));
    } else {
        let shorter = s.drop_last();
        lemma_last_mark_exists(shorter, mark);
        let i = last_mark(shorter, mark);
        assert forall|j: int| i < j < s.len() implies !is_mark(mark, #[trigger] s[j]) by {
            if j < shorter.len() {
                assert(shorter[j] == s[j]);
            }
        }
        if i >= 0 {
            assert(shorter[i] == s[i]);
        }
        assert(is_last_mark(s, mark, i));
    }
}

/// A name that has an extension has a stem that is not empty, and is the
/// stem, a `.` and the extension.
pub proof fn lemma_stem_dot_extension(name: Seq<char>)
    requires
        name_extension(name) is Some,
    ensures
        name_stem(name) is Some,
        name_stem(name)->Some_0.len() > 0,
        name == name_stem(name)->Some_0 + seq!['.'] + name_extension(name)->Some_0,
{
    lemma_last_mark_exists(name, Mark::Dot);
    let dot = last_mark(name, Mark::Dot);
    assert(name =~= name.take(dot) + seq!['.'] + name.skip(dot + 1));
}

/// Whether `c` is a character of the kind `mark`.
pub fn holds_mark(mark: Mark, c: char) -> (b: bool)
    ensures
        b == is_mark(mark, c),
{
    match mark {
        Mark::Dot => c == '.',
        Mark::Separator => c == '/' || c == '\\',
    }
}

/// The last position in `s[from..to]` that holds a `mark`, counted from
/// `from`.
fn find_last_mark(s: &Vec<char>, from: usize, to: usize, mark: Mark) -> (r: Option<usize>)
    requires
        from <= to <= s.len(),
    ensures
        match r {
            Some(i) => from + i < to && last_mark(s@.subrange(from as int, to as int), mark) == i,
            None => last_mark(s@.subrange(from as int, to as int), mark) == -1,
        },
{
    let ghost part = s@.subrange(from as int, to as int);
    let mut i: usize = to;
    while i > from
        invariant
            from <= i <= to <= s.len(),
            part == s@.subrange(from as int, to as int),
            forall|j: int| i - from <= j < part.len() ==> !is_mark(mark, #[trigger] part[j]),
        decreases i,
    {
        i -= 1;
        if holds_mark(mark, s[i]) {
            proof {
                assert(part[i - from] == s@[i as int]);
                lemma_last_mark_is(part, mark, i - from);
            }
            return Some(i - from);
        }
        assert(part[i - from] == s@[i as int]);
    }
    proof {
        lemma_last_mark_is(part, mark, -1);
    }
    None
}

/// Where the stem of the name `s[from..to]` ends, and where its extension
/// begins if it has one. `None` where the name names no file.
fn split_name(s: &Vec<char>, from: usize, to: usize) -> (r: Option<(usize, Option<usize>)>)
    requires
        from <= to <= s.len(),
    ensures
        match r {
            Some((end, ext)) => {
                &&& from <= end <= to
                &&& name_stem(s@.subrange(from as int, to as int)) == Some(
                    s@.subrange(from as int, end as int),
                )
                &&& match ext {
                    Some(e) => e <= to && name_extension(s@.subrange(from as int, to as int))
                        == Some(s@.subrange(e as int, to as int)),
                    None => name_extension(s@.subrange(from as int, to as int)) is None,
                }
            },
            None => {
                &&& name_stem(s@.subrange(from as int, to as int)) is None
                &&& name_extension(s@.subrange(from as int, to as int)) is None
            },
        },
{
    let ghost name = s@.subrange(from as int, to as int);
    let len: usize = to - from;
    if len == 0 {
        return None;
    }
    if len == 1 && s[from] == '.' {
        assert(name =~= seq!['.']);
        return None;
    }
    if len == 2 && s[from] == '.' && s[from + 1] == '.' {
        assert(name =~= seq!['.', '.']);
        return None;
    }
    assert(names_a_file(name)) by {
        assert(name.len() == len);
        assert(name[0] == s@[from as int]);
        assert(seq!['.'].len() == 1 && seq!['.'][0] == '.');
        if len == 2 {
            assert(name[1] == s@[from + 1]);
            assert(seq!['.', '.'].len() == 2 && seq!['.', '.'][0] == '.' && seq!['.', '.'][1]
                == '.');
        }
    }
    match find_last_mark(s, from, to, Mark::Dot) {
        Some(dot) => {
            if dot == 0 {
                assert(name =~= s@.subrange(from as int, to as int));
                Some((to, None))
            } else {
                assert(name.take(dot as int) =~= s@.subrange(from as int, from + dot));
                assert(name.skip(dot + 1) =~= s@.subrange(from + dot + 1, to as int));
                Some((from + dot, Some(from + dot + 1)))
            }
        },
        None => Some((to, None)),
    }
}

/// The length of `path` without the separators and `.` components at its
/// end.
fn trimmed_length(path: &Vec<char>) -> (n: usize)
    ensures
        n <= path.len(),
        trimmed(path@) == path@.take(n as int),
{
    let mut n: usize = path.len();
    assert(path@.take(n as int) =~= path@);
    while n > 0
        invariant
            n <= path.len(),
            trimmed(path@) == trimmed(path@.take(n as int)),
        ensures
            n <= path.len(),
            trimmed(path@) == path@.take(n as int),
        decreases n,
    {
        let ghost head = path@.take(n as int);
        let last = path[n - 1];
        let filler = holds_mark(Mark::Separator, last) || (last == '.' && (n == 1 || holds_mark(
            Mark::Separator,
            path[n - 2],
        )));
        proof {
            assert(head.last() == path@[n - 1]);
            if n >= 2 {
                assert(head[head.len() - 2] == path@[n - 2]);
            }
            assert(filler == ends_in_filler(head));
        }
        if !filler {
            break;
        }
        assert(head.drop_last() =~= path@.take(n - 1));
        n -= 1;
    }
    n
}

/// The stem of the file that `path` names, as a part of `path`.
pub fn file_stem_of<'a>(path: &'a str) -> (r: Option<&'a str>)
    ensures
        match r {
            Some(stem) => file_stem(path@) == Some(stem@),
            None => file_stem(path@) is None,
        },
{
    let chars = crate::text::chars_of(path);
    let to = trimmed_length(&chars);
    let from: usize = match find_last_mark(&chars, 0, to, Mark::Separator) {
        Some(i) => i + 1,
        None => 0,
    };
    proof {
        let t = trimmed(path@);
        assert(chars@.subrange(0, to as int) =~= t);
        assert(t.skip(from as int) =~= chars@.subrange(from as int, to as int));
    }
    match split_name(&chars, from, to) {
        Some((end, _)) => Some(path.substring_char(from, end)),
        None => None,
    }
}

/// The stem of the name of a file, where the name has exactly the extension
/// `wanted`. No case is folded: `JSON` is not `json`. The whole of `name` is
/// taken as one component.
pub fn stem_with_extension<'a>(name: &'a str, wanted: &str) -> (r: Option<&'a str>)
    ensures
        match r {
            Some(stem) => name_extension(name@) == Some(wanted@) && name_stem(name@) == Some(
                stem@,
            ),
            None => name_extension(name@) != Some(wanted@),
        },
{
    let chars = crate::text::chars_of(name);
    let wanted_chars = crate::text::chars_of(wanted);
    assert(chars@.subrange(0, chars.len() as int) =~= name@);
    match split_name(&chars, 0, chars.len()) {
        Some((end, Some(e))) => {
            if chars.len() - e != wanted_chars.len() {
                return None;
            }
            let mut i: usize = 0;
            while i < wanted_chars.len()
                invariant
                    e <= chars.len(),
                    chars.len() - e == wanted_chars.len(),
                    wanted_chars@ == wanted@,
                    name_extension(name@) == Some(chars@.subrange(e as int, chars.len() as int)),
                    forall|k: int| 0 <= k < i ==> chars@[e + k] == wanted_chars@[k],
                decreases wanted_chars.len() - i,
            {
                if chars[e + i] != wanted_chars[i] {
                    assert(chars@.subrange(e as int, chars.len() as int)[i as int] != wanted@[i as int]);
                    return None;
                }
                i += 1;
            }
            assert(chars@.subrange(e as int, chars.len() as int) =~= wanted_chars@);
            Some(name.substring_char(0, end))
        },
        _ => None,
    }
}

/// Whether the name of a file has exactly the extension `wanted`.
pub fn has_extension(name: &str, wanted: &str) -> (b: bool)
    ensures
        b == (name_extension(name@) == Some(wanted@)),
{
    stem_with_extension(name, wanted).is_some()
}

} // verus!
