//! The match rules: by name, by bundled executable, by description.
//!
//! The rules are tried in that order and the first that holds decides; a
//! manifest gives at most one result. All comparisons are made in lower
//! case: the name, the stem of each executable's file and the description are
//! folded, and they are searched for the folded query.

use vstd::prelude::*;
use vstd::utf8::is_ascii_chars;
use crate::manifest::{
    candidate_paths, entry_paths, optional_text, texts, BinEntryView, BinFieldView,
    ManifestRecord, ManifestView,
};
use crate::path::{file_stem, file_stem_of};
use crate::text::{
    ascii_lowered, contains, has_substring, lemma_ascii_lowered_keeps_contains,
    lemma_contains_empty, lemma_part_of_ascii_is_ascii, lowered, lowered_chars,
};

verus! {

/// One manifest that matched a query, with what it matched by.
#[derive(Debug, PartialEq, Eq)]
pub struct MatchResult {
    /// The name of the manifest: the stem of its file.
    pub name: String,
    /// The version that the manifest gives.
    pub version: String,
    /// The executable whose name matched, where the match was by executable.
    pub matched_bin_path: Option<String>,
    /// The description, where the match was by description.
    pub matched_description: Option<String>,
}

/// The mathematical content of a `MatchResult`.
pub struct MatchView {
    pub name: Seq<char>,
    pub version: Seq<char>,
    pub matched_bin_path: Option<Seq<char>>,
    pub matched_description: Option<Seq<char>>,
}

impl View for MatchResult {
    type V = MatchView;

    open spec fn view(&self) -> MatchView {
        MatchView {
            name: self.name@,
            version: self.version@,
            matched_bin_path: optional_text(self.matched_bin_path),
            matched_description: optional_text(self.matched_description),
        }
    }
}

impl MatchView {
    /// A result names at most one thing that matched besides the name.
    pub open spec fn well_formed(self) -> bool {
        !(self.matched_bin_path is Some && self.matched_description is Some)
    }
}

/// The content of an optional result.
pub open spec fn optional_match(r: Option<MatchResult>) -> Option<MatchView> {
    match r {
        Some(m) => Some(m@),
        None => None,
    }
}

/// The result for a manifest that matched by its name.
pub open spec fn by_name(name: Seq<char>, version: Seq<char>) -> MatchView {
    MatchView { name, version, matched_bin_path: None, matched_description: None }
}

/// The result for a manifest that matched by the executable `path`.
pub open spec fn by_bin(name: Seq<char>, version: Seq<char>, path: Seq<char>) -> MatchView {
    MatchView { name, version, matched_bin_path: Some(path), matched_description: None }
}

/// The result for a manifest that matched by its description.
pub open spec fn by_description(
    name: Seq<char>,
    version: Seq<char>,
    description: Seq<char>,
) -> MatchView {
    MatchView { name, version, matched_bin_path: None, matched_description: Some(description) }
}

/// The folded text holds the folded query `q`.
pub open spec fn text_matches(text: Seq<char>, q: Seq<char>) -> bool {
    contains(lowered(text), q)
}

/// `path` names a file whose folded stem holds the folded query `q`.
pub open spec fn path_matches(path: Seq<char>, q: Seq<char>) -> bool {
    match file_stem(path) {
        Some(stem) => text_matches(stem, q),
        None => false,
    }
}

/// `i` is the first position of `paths` whose path matches `q`.
pub open spec fn is_first_match(paths: Seq<Seq<char>>, q: Seq<char>, i: int) -> bool {
    &&& 0 <= i < paths.len()
    &&& path_matches(paths[i], q)
    &&& forall|j: int| 0 <= j < i ==> !path_matches(#[trigger] paths[j], q)
}

/// The first of `paths` that matches `q`.
pub open spec fn first_matching_path(paths: Seq<Seq<char>>, q: Seq<char>) -> Option<Seq<char>> {
    if exists|i: int| is_first_match(paths, q, i) {
        Some(paths[choose|i: int| is_first_match(paths, q, i)])
    } else {
        None
    }
}

/// The first bundled executable that matches `q`.
pub open spec fn bin_match(bin: Option<BinFieldView>, q: Seq<char>) -> Option<Seq<char>> {
    match bin {
        Some(b) => first_matching_path(candidate_paths(b), q),
        None => None,
    }
}

/// The result that the manifest `m`, from a file with the stem `name`, gives
/// for the folded query `q`.
pub open spec fn match_lowered(name: Seq<char>, m: ManifestView, q: Seq<char>) -> Option<
    MatchView,
> {
    if text_matches(name, q) {
        Some(by_name(name, m.version))
    } else if bin_match(m.bundled_executables, q) is Some {
        Some(by_bin(name, m.version, bin_match(m.bundled_executables, q)->Some_0))
    } else if m.description is Some && text_matches(m.description->Some_0, q) {
        Some(by_description(name, m.version, m.description->Some_0))
    } else {
        None
    }
}

/// The result that the manifest `m`, from a file with the stem `name`, gives
/// for `query`.
pub open spec fn find_match(name: Seq<char>, m: ManifestView, query: Seq<char>) -> Option<
    MatchView,
> {
    match_lowered(name, m, lowered(query))
}

/// The first position that matches is the only one.
pub proof fn lemma_first_match_unique(paths: Seq<Seq<char>>, q: Seq<char>, i: int, j: int)
    requires
        is_first_match(paths, q, i),
        is_first_match(paths, q, j),
    ensures
        i == j,
{
    if i < j {
        assert(!path_matches(paths[i], q));
    } else if j < i {
        assert(!path_matches(paths[j], q));
    }
}

/// Where `i` is the first position that matches, the first matching path is
/// the one at `i`.
pub proof fn lemma_first_match_is(paths: Seq<Seq<char>>, q: Seq<char>, i: int)
    requires
        is_first_match(paths, q, i),
    ensures
        first_matching_path(paths, q) == Some(paths[i]),
{
    lemma_first_match_unique(paths, q, i, choose|k: int| is_first_match(paths, q, k));
}

/// Whether the folded `text` holds the folded query `q`.
pub fn folded_contains(text: &str, q: &Vec<char>) -> (b: bool)
    ensures
        b == text_matches(text@, q@),
{
    let folded = lowered_chars(text);
    has_substring(&folded, q)
}

/// Whether `path` names a file whose folded stem holds the folded query `q`.
pub fn stem_contains(path: &str, q: &Vec<char>) -> (b: bool)
    ensures
        b == path_matches(path@, q@),
{
    match file_stem_of(path) {
        Some(stem) => folded_contains(stem, q),
        None => false,
    }
}

/// The position of the first of `paths` that matches `q`.
pub fn first_match(paths: &Vec<String>, q: &Vec<char>) -> (r: Option<usize>)
    ensures
        match r {
            Some(i) => is_first_match(texts(paths@), q@, i as int),
            None => forall|j: int| 0 <= j < paths.len() ==> !path_matches(paths@[j]@, q@),
        },
        match r {
            Some(i) => first_matching_path(texts(paths@), q@) == Some(paths@[i as int]@),
            None => first_matching_path(texts(paths@), q@) is None,
        },
{
    let mut i: usize = 0;
    while i < paths.len()
        invariant
            i <= paths.len(),
            forall|j: int| 0 <= j < i ==> !path_matches(#[trigger] texts(paths@)[j], q@),
        decreases paths.len() - i,
    {
        if stem_contains(paths[i].as_str(), q) {
            proof {
                lemma_first_match_is(texts(paths@), q@, i as int);
            }
            return Some(i);
        }
        i += 1;
    }
    assert forall|j: int| 0 <= j < paths.len() implies !path_matches(paths@[j]@, q@) by {
        assert(texts(paths@)[j] == paths@[j]@);
    }
    None
}

/// Applies the match rules to one manifest, for a query already folded.
pub fn match_lowered_query(name: &str, manifest: &ManifestRecord, q: &Vec<char>) -> (r: Option<
    MatchResult,
>)
    ensures
        optional_match(r) == match_lowered(name@, manifest@, q@),
        r matches Some(m) ==> m@.well_formed(),
{
    if folded_contains(name, q) {
        return Some(
            MatchResult {
                name: name.to_owned(),
                version: manifest.version.clone(),
                matched_bin_path: None,
                matched_description: None,
            },
        );
    }
    match &manifest.bundled_executables {
        Some(bin) => {
            let paths = bin.candidate_paths();
            match first_match(&paths, q) {
                Some(i) => {
                    return Some(
                        MatchResult {
                            name: name.to_owned(),
                            version: manifest.version.clone(),
                            matched_bin_path: Some(paths[i].clone()),
                            matched_description: None,
                        },
                    );
                },
                None => {},
            }
        },
        None => {},
    }
    match &manifest.description {
        Some(description) => {
            if folded_contains(description.as_str(), q) {
                return Some(
                    MatchResult {
                        name: name.to_owned(),
                        version: manifest.version.clone(),
                        matched_bin_path: None,
                        matched_description: Some(description.clone()),
                    },
                );
            }
        },
        None => {},
    }
    None
}

/// Applies the match rules to one manifest.
pub fn match_manifest(name: &str, manifest: &ManifestRecord, query: &str) -> (r: Option<
    MatchResult,
>)
    ensures
        optional_match(r) == find_match(name@, manifest@, query@),
        r matches Some(m) ==> m@.well_formed(),
{
    let q = lowered_chars(query);
    match_lowered_query(name, manifest, &q)
}

/// A manifest that has neither executables nor a description matches exactly
/// the queries whose folded form its folded name holds, and its result names
/// nothing besides the name and the version.
pub proof fn lemma_name_only_manifest(name: Seq<char>, version: Seq<char>, query: Seq<char>)
    ensures
        find_match(
            name,
            ManifestView { version, bundled_executables: None, description: None },
            query,
        ) == if contains(lowered(name), lowered(query)) {
            Some(by_name(name, version))
        } else {
            None
        },
{
}

/// Whatever else a manifest holds, a query whose folded form its folded name
/// holds is answered by the name rule.
pub proof fn lemma_name_rule_comes_first(name: Seq<char>, m: ManifestView, query: Seq<char>)
    requires
        contains(lowered(name), lowered(query)),
    ensures
        find_match(name, m, query) == Some(by_name(name, m.version)),
{
}

/// For ASCII names, any part of the name, in any case, is a query that the
/// name rule answers: folding does not break a part out of its place.
pub proof fn lemma_part_of_ascii_name_matches(name: Seq<char>, m: ManifestView, query: Seq<char>)
    requires
        is_ascii_chars(name),
        is_ascii_chars(query),
        contains(ascii_lowered(name), ascii_lowered(query)),
    ensures
        find_match(name, m, query) == Some(by_name(name, m.version)),
{
}

/// For ASCII names, a query that is a part of the name as it is written is
/// answered by the name rule.
pub proof fn lemma_exact_part_of_ascii_name_matches(
    name: Seq<char>,
    m: ManifestView,
    query: Seq<char>,
)
    requires
        is_ascii_chars(name),
        contains(name, query),
    ensures
        find_match(name, m, query) == Some(by_name(name, m.version)),
{
    lemma_part_of_ascii_is_ascii(name, query);
    lemma_ascii_lowered_keeps_contains(name, query);
}

/// The empty query matches every manifest by its name.
pub proof fn lemma_empty_query_matches_by_name(name: Seq<char>, m: ManifestView)
    ensures
        find_match(name, m, Seq::<char>::empty()) == Some(by_name(name, m.version)),
{
    let empty = Seq::<char>::empty();
    assert(is_ascii_chars(empty));
    assert(ascii_lowered(empty) =~= empty);
    lemma_contains_empty(lowered(name));
}

/// The executable rule comes before the description rule: where the name
/// does not match and an executable does, the result names that executable
/// and no description, whatever the description holds.
pub proof fn lemma_bin_rule_hides_description(name: Seq<char>, m: ManifestView, query: Seq<char>)
    requires
        !contains(lowered(name), lowered(query)),
        bin_match(m.bundled_executables, lowered(query)) is Some,
    ensures
        find_match(name, m, query) == Some(
            by_bin(name, m.version, bin_match(m.bundled_executables, lowered(query))->Some_0),
        ),
        find_match(name, m, query) == find_match(
            name,
            ManifestView { description: None, ..m },
            query,
        ),
{
}

/// A single path matches exactly when the stem of its file does, and it is
/// then the path that the result names.
pub proof fn lemma_single_path_match(path: Seq<char>, q: Seq<char>)
    ensures
        first_matching_path(seq![path], q) == if path_matches(path, q) {
            Some(path)
        } else {
            None::<Seq<char>>
        },
{
    let paths = seq![path];
    if path_matches(path, q) {
        assert(is_first_match(paths, q, 0));
        lemma_first_match_is(paths, q, 0);
    } else {
        assert forall|i: int| !is_first_match(paths, q, i) by {
            if 0 <= i < paths.len() {
                assert(paths[i] == path);
            }
        }
    }
}

/// The three shapes in which one executable can be written name the same
/// path: alone, as the one item of a list, and as a command with arguments.
/// So a query finds the executable in each shape or in none, and where it
/// finds it, the path that it names is the same.
pub proof fn lemma_bin_shapes_agree(path: Seq<char>, arguments: Seq<Seq<char>>, q: Seq<char>)
    ensures
        candidate_paths(BinFieldView::SinglePath(path)) == seq![path],
        candidate_paths(BinFieldView::List(seq![BinEntryView::Path(path)])) == seq![path],
        candidate_paths(
            BinFieldView::List(seq![BinEntryView::Command(seq![path] + arguments)]),
        ) == seq![path],
        bin_match(Some(BinFieldView::SinglePath(path)), q) == if path_matches(path, q) {
            Some(path)
        } else {
            None::<Seq<char>>
        },
        bin_match(Some(BinFieldView::List(seq![BinEntryView::Path(path)])), q) == bin_match(
            Some(BinFieldView::SinglePath(path)),
            q,
        ),
        bin_match(
            Some(BinFieldView::List(seq![BinEntryView::Command(seq![path] + arguments)])),
            q,
        ) == bin_match(Some(BinFieldView::SinglePath(path)), q),
{
    reveal_with_fuel(entry_paths, 2);
    lemma_single_path_match(path, q);
}

} // verus!
