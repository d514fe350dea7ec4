use scoop_searchr::matcher::MatchResult;
use scoop_searchr::order::{
    rank_followed_by, rank_matches, rank_optional_texts, rank_texts, sort_matches, Rank,
};

fn text(s: &str) -> String {
    s.to_string()
}

fn result(name: &str, version: &str, bin: Option<&str>, description: Option<&str>) -> MatchResult {
    MatchResult {
        name: text(name),
        version: text(version),
        matched_bin_path: bin.map(text),
        matched_description: description.map(text),
    }
}

#[test]
fn texts_are_ranked_character_by_character() {
    assert_eq!(rank_texts("a-pkg", "b-pkg"), Rank::Before);
    assert_eq!(rank_texts("b-pkg", "a-pkg"), Rank::After);
    assert_eq!(rank_texts("abc", "abd"), Rank::Before);
    assert_eq!(rank_texts("abc", "abc"), Rank::Same);
    assert_eq!(rank_texts("", ""), Rank::Same);
}

#[test]
fn a_text_comes_before_what_it_begins() {
    assert_eq!(rank_texts("", "a"), Rank::Before);
    assert_eq!(rank_texts("ab", "abc"), Rank::Before);
    assert_eq!(rank_texts("abc", "ab"), Rank::After);
}

#[test]
fn upper_case_comes_before_lower_case() {
    assert_eq!(rank_texts("Zebra", "apple"), Rank::Before);
    assert_eq!(rank_texts("a", "B"), Rank::After);
}

#[test]
fn texts_are_ranked_as_strings_are() {
    let samples = ["", "a", "A", "ab", "b", "é", "z", "zz", "☃", "𝄞", "\u{7f}", "\u{80}", "e\u{301}"];
    for a in samples {
        for b in samples {
            let expected = if a < b {
                Rank::Before
            } else if a > b {
                Rank::After
            } else {
                Rank::Same
            };
            assert_eq!(rank_texts(a, b), expected);
        }
    }
}

#[test]
fn an_absent_text_comes_first() {
    assert_eq!(rank_optional_texts(&None, &None), Rank::Same);
    assert_eq!(rank_optional_texts(&None, &Some(text(""))), Rank::Before);
    assert_eq!(rank_optional_texts(&Some(text("")), &None), Rank::After);
    assert_eq!(rank_optional_texts(&Some(text("a")), &Some(text("b"))), Rank::Before);
    assert_eq!(rank_optional_texts(&Some(text("b")), &Some(text("b"))), Rank::Same);
}

#[test]
fn a_later_key_decides_only_where_the_earlier_is_the_same() {
    assert_eq!(rank_followed_by(Rank::Same, Rank::After), Rank::After);
    assert_eq!(rank_followed_by(Rank::Same, Rank::Same), Rank::Same);
    assert_eq!(rank_followed_by(Rank::Before, Rank::After), Rank::Before);
    assert_eq!(rank_followed_by(Rank::After, Rank::Before), Rank::After);
}

#[test]
fn results_are_ranked_by_each_field_in_turn() {
    let base = result("git", "1.0", Some("git.exe"), Some("vcs"));
    assert_eq!(rank_matches(&base, &result("git", "1.0", Some("git.exe"), Some("vcs"))), Rank::Same);
    assert_eq!(rank_matches(&base, &result("hub", "0.1", None, None)), Rank::Before);
    assert_eq!(rank_matches(&base, &result("git", "1.1", None, None)), Rank::Before);
    assert_eq!(rank_matches(&base, &result("git", "1.0", None, Some("zzz"))), Rank::After);
    assert_eq!(rank_matches(&base, &result("git", "1.0", Some("h.exe"), None)), Rank::Before);
    assert_eq!(rank_matches(&base, &result("git", "1.0", Some("git.exe"), None)), Rank::After);
    assert_eq!(rank_matches(&base, &result("git", "1.0", Some("git.exe"), Some("vct"))), Rank::Before);
}

#[test]
fn sorting_orders_results_and_keeps_each_of_them() {
    let sorted = sort_matches(vec![
        result("b", "1", None, None),
        result("a", "2", None, Some("d")),
        result("a", "2", None, None),
        result("a", "10", None, None),
        result("a", "2", Some("x"), None),
        result("b", "1", None, None),
    ]);
    assert_eq!(
        sorted,
        vec![
            result("a", "10", None, None),
            result("a", "2", None, None),
            result("a", "2", None, Some("d")),
            result("a", "2", Some("x"), None),
            result("b", "1", None, None),
            result("b", "1", None, None),
        ]
    );
}

#[test]
fn sorting_nothing_gives_nothing() {
    assert_eq!(sort_matches(Vec::new()), Vec::<MatchResult>::new());
}

#[test]
fn sorting_does_not_depend_on_the_order_given() {
    let names = ["m", "c", "x", "a", "q", "b"];
    let forward: Vec<MatchResult> = names.iter().map(|n| result(n, "1", None, None)).collect();
    let backward: Vec<MatchResult> =
        names.iter().rev().map(|n| result(n, "1", None, None)).collect();
    assert_eq!(sort_matches(forward), sort_matches(backward));
}
