//! Scanning a bucket: from the files of a directory to the sorted matches.
//!
//! The caller lists the directory and reads the files; the scan takes what
//! was read. A file whose extension is not exactly `json` is no manifest and
//! is passed over in silence. A manifest that could not be read, or whose
//! text could not be decoded, is set aside with the reason and never keeps
//! the others from being matched.

use vstd::prelude::*;
use crate::manifest::{decode_document, decode_manifest, DecodeError, ManifestView};
use crate::matcher::{
    bin_match, by_bin, by_name, lemma_empty_query_matches_by_name, match_lowered,
    match_lowered_query, MatchResult, MatchView,
};
use vstd::seq_lib::lemma_seq_union_to_multiset_commutative;
use crate::order::{
    lemma_names_stay_distinct, lemma_sorted_distinct_names_ascend, lemma_sorted_form_exists,
    lemma_sorted_form_forgets_order, match_views, names_distinct, sort_matches, sorted,
    sorted_form, strictly_by_name,
};
use crate::path::{
    has_extension, is_mark, lemma_last_mark_is, lemma_stem_dot_extension, name_extension,
    name_stem, stem_with_extension, Mark,
};
use crate::text::{contains, lowered, lowered_chars};

verus! {

/// One entry of a bucket directory, as the caller found it.
#[derive(Debug, PartialEq, Eq)]
pub struct BucketFile {
    /// The name of the file, without its directory.
    pub file_name: String,
    /// What the file holds; `None` where it could not be read.
    pub content: Option<Vec<u8>>,
}

/// Why a manifest was set aside.
#[derive(Clone, Copy, Debug, PartialEq, Eq)]
pub enum SkipReason {
    /// The file could not be read.
    Unreadable,
    /// The text of the file is no manifest.
    Undecodable(DecodeError),
}

/// A manifest that was set aside.
#[derive(Debug, PartialEq, Eq)]
pub struct SkippedFile {
    pub file_name: String,
    pub reason: SkipReason,
}

/// What a scan found.
#[derive(Debug, PartialEq, Eq)]
pub struct ScanOutcome {
    /// The matches, sorted.
    pub matches: Vec<MatchResult>,
    /// The manifests that were set aside, in the order of the files.
    pub skipped: Vec<SkippedFile>,
}

/// The mathematical content of a `BucketFile`.
pub struct BucketFileView {
    pub file_name: Seq<char>,
    pub content: Option<Seq<u8>>,
}

/// The mathematical content of a `SkippedFile`.
pub struct SkippedView {
    pub file_name: Seq<char>,
    pub reason: SkipReason,
}

impl View for BucketFile {
    type V = BucketFileView;

    open spec fn view(&self) -> BucketFileView {
        BucketFileView {
            file_name: self.file_name@,
            content: match self.content {
                Some(bytes) => Some(bytes@),
                None => None,
            },
        }
    }
}

impl View for SkippedFile {
    type V = SkippedView;

    open spec fn view(&self) -> SkippedView {
        SkippedView { file_name: self.file_name@, reason: self.reason }
    }
}

/// The content of each file of `files`.
pub open spec fn file_views(files: Seq<BucketFile>) -> Seq<BucketFileView> {
    Seq::new(files.len(), |i: int| files[i]@)
}

/// The content of each entry of `skipped`.
pub open spec fn skipped_views(skipped: Seq<SkippedFile>) -> Seq<SkippedView> {
    Seq::new(skipped.len(), |i: int| skipped[i]@)
}

/// A file is a manifest exactly when its extension is `json`, in lower case.
/// The name of the file is taken as it stands, as one component.
pub open spec fn is_manifest_name(file_name: Seq<char>) -> bool {
    name_extension(file_name) == Some("json"@)
}

/// The name under which a manifest is listed: the stem of its file's name.
pub open spec fn manifest_name(file_name: Seq<char>) -> Seq<char> {
    name_stem(file_name)->Some_0
}

/// Why the file is set aside, if it is: it is a manifest, and it could not be
/// read or its text could not be decoded.
pub open spec fn skip_reason(f: BucketFileView) -> Option<SkipReason> {
    if !is_manifest_name(f.file_name) {
        None
    } else {
        match f.content {
            None => Some(SkipReason::Unreadable),
            Some(bytes) => match decode_document(bytes) {
                Err(e) => Some(SkipReason::Undecodable(e)),
                Ok(_) => None,
            },
        }
    }
}

/// The result that the file gives for the folded query `q`, if it gives one:
/// it is a manifest, it was read and decoded, and a match rule holds. Its
/// name is the stem of the file.
pub open spec fn file_match(f: BucketFileView, q: Seq<char>) -> Option<MatchView> {
    if !is_manifest_name(f.file_name) {
        None
    } else {
        match f.content {
            None => None,
            Some(bytes) => match decode_document(bytes) {
                Err(_) => None,
                Ok(m) => match_lowered(manifest_name(f.file_name), m, q),
            },
        }
    }
}

/// The results that the files give for the folded query `q`, in the order of
/// the files.
pub open spec fn found(files: Seq<BucketFileView>, q: Seq<char>) -> Seq<MatchView>
    decreases files.len(),
{
    if files.len() == 0 {
        Seq::empty()
    } else {
        let before = found(files.drop_last(), q);
        match file_match(files.last(), q) {
            Some(m) => before.push(m),
            None => before,
        }
    }
}

/// The manifests among the files that are set aside, in the order of the
/// files.
pub open spec fn set_aside(files: Seq<BucketFileView>) -> Seq<SkippedView>
    decreases files.len(),
{
    if files.len() == 0 {
        Seq::empty()
    } else {
        let before = set_aside(files.drop_last());
        match skip_reason(files.last()) {
            Some(reason) => before.push(SkippedView { file_name: files.last().file_name, reason }),
            None => before,
        }
    }
}

/// Whether a file of this name is a manifest. The caller need not read any
/// other file.
pub fn is_manifest_file(file_name: &str) -> (b: bool)
    ensures
        b == is_manifest_name(file_name@),
{
    has_extension(file_name, "json")
}

/// What one file gives for the folded query `q`: a result, a reason to set it
/// aside, or neither.
pub fn scan_file(file: &BucketFile, q: &Vec<char>) -> (r: Result<Option<MatchResult>, SkipReason>)
    ensures
        match r {
            Ok(Some(m)) => file_match(file@, q@) == Some(m@) && skip_reason(file@) is None,
            Ok(None) => file_match(file@, q@) is None && skip_reason(file@) is None,
            Err(reason) => file_match(file@, q@) is None && skip_reason(file@) == Some(reason),
        },
{
    let name = match stem_with_extension(file.file_name.as_str(), "json") {
        Some(name) => name,
        None => {
            return Ok(None);
        },
    };
    let bytes = match &file.content {
        Some(bytes) => bytes,
        None => {
            return Err(SkipReason::Unreadable);
        },
    };
    match decode_manifest(bytes.as_slice()) {
        Ok(manifest) => Ok(match_lowered_query(name, &manifest, q)),
        Err(e) => Err(SkipReason::Undecodable(e)),
    }
}

/// Scans the files of one bucket for `term`. The matches come back sorted,
/// each file's at most once, and strictly by name where no two files have the
/// same name; the manifests that were set aside come back with the reason,
/// for the caller to report.
pub fn find_manifests(files: &Vec<BucketFile>, term: &str) -> (outcome: ScanOutcome)
    ensures
        match_views(outcome.matches@) == sorted_form(found(file_views(files@), lowered(term@))),
        sorted(match_views(outcome.matches@)),
        file_names_distinct(file_views(files@)) ==> strictly_by_name(
            match_views(outcome.matches@),
        ),
        match_views(outcome.matches@).to_multiset() == found(
            file_views(files@),
            lowered(term@),
        ).to_multiset(),
        skipped_views(outcome.skipped@) == set_aside(file_views(files@)),
{
    let q = lowered_chars(term);
    let mut results: Vec<MatchResult> = Vec::new();
    let mut skipped: Vec<SkippedFile> = Vec::new();
    let mut i: usize = 0;
    while i < files.len()
        invariant
            i <= files.len(),
            q@ == lowered(term@),
            match_views(results@) == found(file_views(files@).take(i as int), q@),
            skipped_views(skipped@) == set_aside(file_views(files@).take(i as int)),
        decreases files.len() - i,
    {
        assert(file_views(files@).take(i + 1).drop_last() =~= file_views(files@).take(i as int));
        match scan_file(&files[i], &q) {
            Ok(Some(m)) => {
                results.push(m);
            },
            Ok(None) => {},
            Err(reason) => {
                skipped.push(SkippedFile { file_name: files[i].file_name.clone(), reason });
            },
        }
        i += 1;
    }
    assert(file_views(files@).take(i as int) =~= file_views(files@));
    proof {
        if file_names_distinct(file_views(files@)) {
            lemma_matches_ascend_strictly_by_name(file_views(files@), q@);
        }
    }
    ScanOutcome { matches: sort_matches(results), skipped }
}

/// A file gives at most one result.
pub proof fn lemma_found_at_most_one_each(files: Seq<BucketFileView>, q: Seq<char>)
    ensures
        found(files, q).len() <= files.len(),
    decreases files.len(),
{
    if files.len() > 0 {
        lemma_found_at_most_one_each(files.drop_last(), q);
    }
}

/// A directory with one file gives that file's result, or nothing.
pub proof fn lemma_found_single(f: BucketFileView, q: Seq<char>)
    ensures
        found(seq![f], q) == match file_match(f, q) {
            Some(m) => seq![m],
            None => Seq::<MatchView>::empty(),
        },
{
    let files = seq![f];
    assert(files.drop_last() =~= Seq::<BucketFileView>::empty());
    assert(found(files.drop_last(), q) =~= Seq::<MatchView>::empty());
    assert(files.last() == f);
    match file_match(f, q) {
        Some(m) => {
            assert(found(files, q) =~= seq![m]);
        },
        None => {},
    }
}

/// The results of two lists of files, one after the other, are the results
/// of the first followed by those of the second: no file bears on what
/// another gives.
pub proof fn lemma_found_concat(a: Seq<BucketFileView>, b: Seq<BucketFileView>, q: Seq<char>)
    ensures
        found(a + b, q) == found(a, q) + found(b, q),
    decreases b.len(),
{
    if b.len() == 0 {
        assert(a + b =~= a);
        assert(found(a, q) + found(b, q) =~= found(a, q));
    } else {
        assert((a + b).drop_last() =~= a + b.drop_last());
        assert((a + b).last() == b.last());
        lemma_found_concat(a, b.drop_last(), q);
        match file_match(b.last(), q) {
            Some(m) => {
                assert((found(a, q) + found(b.drop_last(), q)).push(m) =~= found(a, q) + found(
                    b.drop_last(),
                    q,
                ).push(m));
            },
            None => {},
        }
    }
}

/// No two of the files have the same name.
pub open spec fn file_names_distinct(files: Seq<BucketFileView>) -> bool {
    forall|i: int, j: int| 0 <= i < j < files.len() ==> files[i].file_name != files[j].file_name
}

/// Two manifests that are listed under the same name are files of the same
/// name.
pub proof fn lemma_manifest_name_gives_file_name(a: Seq<char>, b: Seq<char>)
    requires
        is_manifest_name(a),
        is_manifest_name(b),
        manifest_name(a) == manifest_name(b),
    ensures
        a == b,
{
    lemma_stem_dot_extension(a);
    lemma_stem_dot_extension(b);
}

/// Every result is that of one of the files, a manifest, and bears the stem
/// of that file's name.
pub proof fn lemma_found_comes_from_a_file(files: Seq<BucketFileView>, q: Seq<char>, i: int)
    requires
        0 <= i < found(files, q).len(),
    ensures
        exists|k: int|
            0 <= k < files.len() && file_match(#[trigger] files[k], q) == Some(found(files, q)[i])
                && is_manifest_name(files[k].file_name) && found(files, q)[i].name
                == manifest_name(files[k].file_name),
    decreases files.len(),
{
    let before = found(files.drop_last(), q);
    if i < before.len() {
        lemma_found_comes_from_a_file(files.drop_last(), q, i);
        let k = choose|k: int|
            0 <= k < files.drop_last().len() && file_match(#[trigger] files.drop_last()[k], q)
                == Some(before[i]) && is_manifest_name(files.drop_last()[k].file_name)
                && before[i].name == manifest_name(files.drop_last()[k].file_name);
        assert(files.drop_last()[k] == files[k]);
        assert(found(files, q)[i] == before[i]);
    } else {
        let k = files.len() - 1;
        assert(file_match(files[k], q) == Some(found(files, q)[i]));
    }
}

/// Results stand in the order of the files that gave them: of two results,
/// the earlier is that of an earlier file.
pub proof fn lemma_found_positions_ascend(
    files: Seq<BucketFileView>,
    q: Seq<char>,
    i: int,
    j: int,
)
    requires
        0 <= i < j < found(files, q).len(),
    ensures
        exists|a: int, b: int|
            0 <= a < b < files.len() && is_manifest_name(files[a].file_name) && is_manifest_name(
                files[b].file_name,
            ) && found(files, q)[i].name == manifest_name(files[a].file_name) && found(
                files,
                q,
            )[j].name == manifest_name(files[b].file_name),
    decreases files.len(),
{
    let shorter = files.drop_last();
    let before = found(shorter, q);
    lemma_found_at_most_one_each(shorter, q);
    if j < before.len() {
        lemma_found_positions_ascend(shorter, q, i, j);
        let (a, b) = choose|a: int, b: int|
            0 <= a < b < shorter.len() && is_manifest_name(shorter[a].file_name)
                && is_manifest_name(shorter[b].file_name) && before[i].name == manifest_name(
                shorter[a].file_name,
            ) && before[j].name == manifest_name(shorter[b].file_name);
        assert(shorter[a] == files[a] && shorter[b] == files[b]);
        assert(found(files, q)[i] == before[i] && found(files, q)[j] == before[j]);
    } else {
        let b = files.len() - 1;
        lemma_found_comes_from_a_file(shorter, q, i);
        let a = choose|k: int|
            0 <= k < shorter.len() && file_match(#[trigger] shorter[k], q) == Some(before[i])
                && is_manifest_name(shorter[k].file_name) && before[i].name == manifest_name(
                shorter[k].file_name,
            );
        assert(shorter[a] == files[a]);
        assert(found(files, q)[i] == before[i]);
        assert(file_match(files[b], q) == Some(found(files, q)[j]));
    }
}

/// The name is unique within a bucket: where no two files have the same
/// name, no two results have.
pub proof fn lemma_distinct_files_give_distinct_names(files: Seq<BucketFileView>, q: Seq<char>)
    requires
        file_names_distinct(files),
    ensures
        names_distinct(found(files, q)),
{
    let results = found(files, q);
    assert forall|i: int, j: int| 0 <= i < j < results.len() implies results[i].name
        != results[j].name by {
        lemma_found_positions_ascend(files, q, i, j);
        let (a, b) = choose|a: int, b: int|
            0 <= a < b < files.len() && is_manifest_name(files[a].file_name) && is_manifest_name(
                files[b].file_name,
            ) && results[i].name == manifest_name(files[a].file_name) && results[j].name
                == manifest_name(files[b].file_name);
        if results[i].name == results[j].name {
            lemma_manifest_name_gives_file_name(files[a].file_name, files[b].file_name);
        }
    }
}

/// Where no two files have the same name, the matches are listed strictly in
/// the order of their names.
pub proof fn lemma_matches_ascend_strictly_by_name(files: Seq<BucketFileView>, q: Seq<char>)
    requires
        file_names_distinct(files),
    ensures
        names_distinct(sorted_form(found(files, q))),
        strictly_by_name(sorted_form(found(files, q))),
{
    lemma_distinct_files_give_distinct_names(files, q);
    lemma_sorted_form_exists(found(files, q));
    lemma_names_stay_distinct(found(files, q), sorted_form(found(files, q)));
    lemma_sorted_distinct_names_ascend(sorted_form(found(files, q)));
}

/// The order in which a directory is listed does not show in the matches.
pub proof fn lemma_listing_order_does_not_matter(
    a: Seq<BucketFileView>,
    b: Seq<BucketFileView>,
    q: Seq<char>,
)
    ensures
        sorted_form(found(a + b, q)) == sorted_form(found(b + a, q)),
{
    lemma_found_concat(a, b, q);
    lemma_found_concat(b, a, q);
    lemma_seq_union_to_multiset_commutative(found(a, q), found(b, q));
    lemma_sorted_form_forgets_order(found(a + b, q), found(b + a, q));
}

/// A manifest that could not be read or decoded hides nothing: with it in
/// the directory, wherever it stands, the results are those of the other
/// files.
pub proof fn lemma_set_aside_hides_nothing(
    before: Seq<BucketFileView>,
    f: BucketFileView,
    after: Seq<BucketFileView>,
    q: Seq<char>,
)
    requires
        skip_reason(f) is Some,
    ensures
        found(before + seq![f] + after, q) == found(before + after, q),
{
    lemma_found_concat(before + seq![f], after, q);
    lemma_found_concat(before, seq![f], q);
    lemma_found_single(f, q);
    lemma_found_concat(before, after, q);
    assert(found(before, q) + Seq::<MatchView>::empty() =~= found(before, q));
}

/// The file of a manifest is named by the manifest's name, a `.` and `json`:
/// such a file is a manifest and is listed under that name, whatever
/// characters the name holds.
pub open spec fn manifest_file_name(name: Seq<char>) -> Seq<char> {
    name + seq!['.'] + "json"@
}

/// A file named as a manifest of a name that is not empty is a manifest, and
/// is listed under exactly that name.
pub proof fn lemma_manifest_file_is_listed_by_its_name(name: Seq<char>)
    requires
        name.len() > 0,
    ensures
        is_manifest_name(manifest_file_name(name)),
        manifest_name(manifest_file_name(name)) == name,
{
    reveal_strlit("json");
    let file = manifest_file_name(name);
    let dot = name.len() as int;
    assert(file[dot] == '.');
    assert forall|j: int| dot < j < file.len() implies !is_mark(Mark::Dot, #[trigger] file[j]) by {
        assert(file[j] == "json"@[j - dot - 1]);
    }
    lemma_last_mark_is(file, Mark::Dot, dot);
    assert(file.len() >= 6);
    assert(file.take(dot) =~= name);
    assert(file.skip(dot + 1) =~= "json"@);
}

/// The manifest `m`, read from the file of the name `name` alone in its
/// directory, gives what the match rules give for that name.
pub proof fn lemma_one_manifest_scan(
    name: Seq<char>,
    content: Seq<u8>,
    m: ManifestView,
    q: Seq<char>,
)
    requires
        name.len() > 0,
        decode_document(content) == Ok::<ManifestView, DecodeError>(m),
    ensures
        found(
            seq![BucketFileView { file_name: manifest_file_name(name), content: Some(content) }],
            q,
        ) == match match_lowered(name, m, q) {
            Some(r) => seq![r],
            None => Seq::<MatchView>::empty(),
        },
{
    lemma_manifest_file_is_listed_by_its_name(name);
    lemma_found_single(
        BucketFileView { file_name: manifest_file_name(name), content: Some(content) },
        q,
    );
}

/// A manifest that holds a version and neither executables nor a
/// description, alone in its directory, gives exactly one result for a
/// query whose folded form its folded name holds: the one by its name.
pub proof fn lemma_name_only_manifest_is_found_once(
    name: Seq<char>,
    content: Seq<u8>,
    version: Seq<char>,
    query: Seq<char>,
)
    requires
        name.len() > 0,
        decode_document(content) == Ok::<ManifestView, DecodeError>(
            ManifestView { version, bundled_executables: None, description: None },
        ),
        contains(lowered(name), lowered(query)),
    ensures
        found(
            seq![BucketFileView { file_name: manifest_file_name(name), content: Some(content) }],
            lowered(query),
        ) == seq![by_name(name, version)],
{
    lemma_one_manifest_scan(
        name,
        content,
        ManifestView { version, bundled_executables: None, description: None },
        lowered(query),
    );
}

/// Where the name of a manifest does not match and one of its executables
/// does, the scan lists the manifest once, under its name and with that
/// executable, whatever its description holds.
pub proof fn lemma_executable_is_found_before_description(
    name: Seq<char>,
    content: Seq<u8>,
    m: ManifestView,
    query: Seq<char>,
)
    requires
        name.len() > 0,
        decode_document(content) == Ok::<ManifestView, DecodeError>(m),
        !contains(lowered(name), lowered(query)),
        bin_match(m.bundled_executables, lowered(query)) is Some,
    ensures
        found(
            seq![BucketFileView { file_name: manifest_file_name(name), content: Some(content) }],
            lowered(query),
        ) == seq![
            by_bin(name, m.version, bin_match(m.bundled_executables, lowered(query))->Some_0),
        ],
{
    lemma_one_manifest_scan(name, content, m, lowered(query));
}

/// For the empty query every manifest that is read and decoded is listed by
/// its name, with its version and nothing else.
pub proof fn lemma_empty_query_lists_every_manifest(f: BucketFileView, m: ManifestView)
    requires
        is_manifest_name(f.file_name),
        f.content is Some,
        decode_document(f.content->Some_0) == Ok::<ManifestView, DecodeError>(m),
    ensures
        file_match(f, lowered(Seq::<char>::empty())) == Some(
            by_name(manifest_name(f.file_name), m.version),
        ),
{
    lemma_empty_query_matches_by_name(manifest_name(f.file_name), m);
}

} // verus!
