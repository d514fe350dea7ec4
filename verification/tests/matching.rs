use scoop_searchr::manifest::{decode_manifest, BinEntry, BinField, ManifestRecord};
use scoop_searchr::matcher::{
    first_match, folded_contains, match_lowered_query, match_manifest, stem_contains, MatchResult,
};
use scoop_searchr::path::file_stem_of;
use scoop_searchr::text::{chars_of, lowered_chars};

fn text(s: &str) -> String {
    s.to_string()
}

fn record(version: &str, bin: Option<BinField>, description: Option<&str>) -> ManifestRecord {
    ManifestRecord {
        version: text(version),
        bundled_executables: bin,
        description: description.map(text),
    }
}

fn by_name(name: &str, version: &str) -> MatchResult {
    MatchResult {
        name: text(name),
        version: text(version),
        matched_bin_path: None,
        matched_description: None,
    }
}

fn by_bin(name: &str, version: &str, path: &str) -> MatchResult {
    MatchResult {
        name: text(name),
        version: text(version),
        matched_bin_path: Some(text(path)),
        matched_description: None,
    }
}

fn by_description(name: &str, version: &str, description: &str) -> MatchResult {
    MatchResult {
        name: text(name),
        version: text(version),
        matched_bin_path: None,
        matched_description: Some(text(description)),
    }
}

#[test]
fn every_part_of_the_name_matches_a_manifest_without_bin_and_description() {
    let manifest = record("1.2.3", None, None);
    let name = "ripgrep";
    for start in 0..=name.len() {
        for end in start..=name.len() {
            let query = &name[start..end];
            assert_eq!(match_manifest(name, &manifest, query), Some(by_name(name, "1.2.3")));
            assert_eq!(
                match_manifest(name, &manifest, &query.to_uppercase()),
                Some(by_name(name, "1.2.3"))
            );
        }
    }
    assert_eq!(match_manifest(name, &manifest, "grip"), None);
}

#[test]
fn matching_does_not_look_at_case() {
    let manifest = record("1.0", None, None);
    assert_eq!(match_manifest("Foo-Bar", &manifest, "foo"), Some(by_name("Foo-Bar", "1.0")));
    assert_eq!(match_manifest("Foo-Bar", &manifest, "FOO"), Some(by_name("Foo-Bar", "1.0")));
    assert_eq!(match_manifest("Foo-Bar", &manifest, "bar"), Some(by_name("Foo-Bar", "1.0")));
    assert_eq!(match_manifest("Foo-Bar", &manifest, "O-b"), Some(by_name("Foo-Bar", "1.0")));
    assert_eq!(match_manifest("Foo-Bar", &manifest, "foobar"), None);
}

#[test]
fn matching_folds_text_beyond_ascii() {
    let manifest = record("1.0", None, Some("Éditeur de TEXTE"));
    assert_eq!(match_manifest("Ünïcode", &manifest, "ÜNÏ"), Some(by_name("Ünïcode", "1.0")));
    assert_eq!(
        match_manifest("x", &manifest, "éDITEUR"),
        Some(by_description("x", "1.0", "Éditeur de TEXTE"))
    );
}

#[test]
fn bin_match_comes_before_description_match() {
    let manifest = record(
        "4.5",
        Some(BinField::SinglePath(text("bin/Ripgrep.exe"))),
        Some("ripgrep recursively searches directories"),
    );
    assert_eq!(
        match_manifest("rg", &manifest, "ripgrep"),
        Some(by_bin("rg", "4.5", "bin/Ripgrep.exe"))
    );
}

#[test]
fn name_match_comes_before_bin_and_description_match() {
    let manifest = record("1", Some(BinField::SinglePath(text("git.exe"))), Some("git it"));
    assert_eq!(match_manifest("git", &manifest, "git"), Some(by_name("git", "1")));
}

#[test]
fn bin_shapes_are_equivalent_for_matching() {
    let texts: [&[u8]; 3] = [
        br#"{"version":"1","bin":"foo.exe"}"#,
        br#"{"version":"1","bin":["foo.exe"]}"#,
        br#"{"version":"1","bin":[["foo.exe","--arg"]]}"#,
    ];
    for bytes in texts {
        let manifest = decode_manifest(bytes).unwrap();
        let found = match_manifest("pkg", &manifest, "foo").unwrap();
        assert_eq!(found, by_bin("pkg", "1", "foo.exe"));
        assert_eq!(file_stem_of(found.matched_bin_path.as_ref().unwrap()), Some("foo"));
    }
}

#[test]
fn the_first_matching_executable_is_the_one_named() {
    let manifest = record(
        "1",
        Some(BinField::List(vec![
            BinEntry::Path(text("tools/other.exe")),
            BinEntry::Command(vec![]),
            BinEntry::Command(vec![text("bin\\GitK.cmd"), text("--all")]),
            BinEntry::Path(text("git.exe")),
        ])),
        None,
    );
    assert_eq!(match_manifest("scm", &manifest, "git"), Some(by_bin("scm", "1", "bin\\GitK.cmd")));
    assert_eq!(match_manifest("scm", &manifest, "git."), None);
    assert_eq!(match_manifest("scm", &manifest, "oth"), Some(by_bin("scm", "1", "tools/other.exe")));
}

#[test]
fn only_the_stem_of_an_executable_is_searched() {
    let manifest = record("1", Some(BinField::SinglePath(text("tools/run.exe"))), None);
    assert_eq!(match_manifest("pkg", &manifest, "tools"), None);
    assert_eq!(match_manifest("pkg", &manifest, "exe"), None);
    assert_eq!(match_manifest("pkg", &manifest, "run"), Some(by_bin("pkg", "1", "tools/run.exe")));
}

#[test]
fn arguments_of_a_command_are_not_searched() {
    let manifest = record(
        "1",
        Some(BinField::List(vec![BinEntry::Command(vec![text("hub"), text("alias")])])),
        None,
    );
    assert_eq!(match_manifest("pkg", &manifest, "alias"), None);
    assert_eq!(match_manifest("pkg", &manifest, "hub"), Some(by_bin("pkg", "1", "hub")));
}

#[test]
fn an_executable_that_names_no_file_never_matches() {
    let manifest = record(
        "1",
        Some(BinField::List(vec![BinEntry::Path(text("")), BinEntry::Path(text("bin/.."))])),
        Some("dots"),
    );
    assert_eq!(match_manifest("pkg", &manifest, "."), None);
    assert_eq!(match_manifest("pkg", &manifest, "dots"), Some(by_description("pkg", "1", "dots")));
}

#[test]
fn description_match_keeps_the_description_as_written() {
    let manifest = record("1.0", Some(BinField::SinglePath(text("git.exe"))), Some("Distributed VCS"));
    assert_eq!(
        match_manifest("git", &manifest, "vcs"),
        Some(by_description("git", "1.0", "Distributed VCS"))
    );
}

#[test]
fn a_manifest_that_matches_by_no_rule_gives_nothing() {
    let manifest = record("1.0", Some(BinField::SinglePath(text("git.exe"))), Some("distributed vcs"));
    assert_eq!(match_manifest("git", &manifest, "zzz"), None);
}

#[test]
fn the_empty_query_matches_every_manifest_by_name() {
    let with_all = record("1.0", Some(BinField::SinglePath(text("git.exe"))), Some("vcs"));
    let bare = record("0.1", None, None);
    assert_eq!(match_manifest("git", &with_all, ""), Some(by_name("git", "1.0")));
    assert_eq!(match_manifest("", &bare, ""), Some(by_name("", "0.1")));
    assert_eq!(match_manifest("Ünï", &bare, ""), Some(by_name("Ünï", "0.1")));
}

#[test]
fn a_result_never_names_both_an_executable_and_a_description() {
    let manifest = record("1", Some(BinField::SinglePath(text("abc.exe"))), Some("abc"));
    for query in ["", "a", "abc", "pkg", "zzz"] {
        if let Some(found) = match_manifest("pkg", &manifest, query) {
            assert!(!(found.matched_bin_path.is_some() && found.matched_description.is_some()));
        }
    }
}

#[test]
fn a_folded_query_is_taken_as_it_is() {
    let manifest = record("1", None, None);
    assert_eq!(
        match_lowered_query("Foo", &manifest, &lowered_chars("FOO")),
        Some(by_name("Foo", "1"))
    );
    assert_eq!(match_lowered_query("Foo", &manifest, &chars_of("FOO")), None);
}

#[test]
fn folded_contains_folds_the_text_only() {
    assert!(folded_contains("Distributed VCS", &chars_of("vcs")));
    assert!(!folded_contains("Distributed VCS", &chars_of("VCS")));
    assert!(folded_contains("anything", &chars_of("")));
}

#[test]
fn stem_contains_searches_the_folded_stem() {
    assert!(stem_contains("bin/Foo.EXE", &chars_of("foo")));
    assert!(!stem_contains("bin/Foo.EXE", &chars_of("exe")));
    assert!(!stem_contains("bin/..", &chars_of("")));
    assert!(stem_contains("Tools/", &chars_of("tool")));
    assert!(stem_contains("x", &chars_of("")));
}

#[test]
fn first_match_gives_the_least_position() {
    let paths = vec![text("a.exe"), text("dir/ab.exe"), text("ab"), text("..")];
    assert_eq!(first_match(&paths, &chars_of("ab")), Some(1));
    assert_eq!(first_match(&paths, &chars_of("a")), Some(0));
    assert_eq!(first_match(&paths, &chars_of("b")), Some(1));
    assert_eq!(first_match(&paths, &chars_of("c")), None);
    assert_eq!(first_match(&Vec::new(), &chars_of("")), None);
}

#[test]
fn a_letter_that_folds_by_its_place_is_matched_as_folded() {
    let manifest = record("1", None, None);
    assert_eq!(match_manifest("ΑΣ", &manifest, "ας"), Some(by_name("ΑΣ", "1")));
    assert_eq!(match_manifest("ΑΣ", &manifest, "ΑΣ"), Some(by_name("ΑΣ", "1")));
    assert_eq!(match_manifest("ΑΣ", &manifest, "Σ"), None);
}
