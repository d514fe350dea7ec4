//! The order of results, and sorting by it.
//!
//! Texts are ordered as strings are: character by character, by code point,
//! a text before every text that it is a proper beginning of. An absent text
//! comes before every text that is there. Results are ordered by name, then
//! by version, then by the executable that matched, then by the description
//! that matched.

use vstd::prelude::*;
use vstd::std_specs::iter::IteratorSpec;
use vstd::seq_lib::{to_multiset_build, to_multiset_insert};
use crate::matcher::{MatchResult, MatchView};

verus! {

/// How one value stands to another in an order.
#[derive(Clone, Copy, Debug, PartialEq, Eq)]
pub enum Rank {
    Before,
    Same,
    After,
}

/// How the text `a` stands to the text `b`.
pub open spec fn text_rank(a: Seq<char>, b: Seq<char>) -> Rank
    decreases a.len(),
{
    if a.len() == 0 {
        if b.len() == 0 {
            Rank::Same
        } else {
            Rank::Before
        }
    } else if b.len() == 0 {
        Rank::After
    } else if a[0] < b[0] {
        Rank::Before
    } else if a[0] > b[0] {
        Rank::After
    } else {
        text_rank(a.drop_first(), b.drop_first())
    }
}

/// How the string `a` stands to the string `b`.
pub fn rank_texts(a: &str, b: &str) -> (r: Rank)
    ensures
        r == text_rank(a@, b@),
{
    let mut left = a.chars();
    let mut right = b.chars();
    loop
        invariant
            text_rank(a@, b@) == text_rank(left.remaining(), right.remaining()),
            left.decrease() is Some,
        decreases left.decrease()->0,
    {
        let ghost before_left = left.remaining();
        let ghost before_right = right.remaining();
        let x = left.next();
        let y = right.next();
        match (x, y) {
            (None, None) => {
                return Rank::Same;
            },
            (None, Some(_)) => {
                return Rank::Before;
            },
            (Some(_), None) => {
                return Rank::After;
            },
            (Some(c), Some(d)) => {
                if c < d {
                    return Rank::Before;
                }
                if c > d {
                    return Rank::After;
                }
            },
        }
    }
}

/// How the optional text `a` stands to the optional text `b`: an absent text
/// comes first.
pub open spec fn optional_rank(a: Option<Seq<char>>, b: Option<Seq<char>>) -> Rank {
    match (a, b) {
        (None, None) => Rank::Same,
        (None, Some(_)) => Rank::Before,
        (Some(_), None) => Rank::After,
        (Some(x), Some(y)) => text_rank(x, y),
    }
}

/// The rank by a first key and, where that is the same, by what follows.
pub open spec fn followed_by(first: Rank, rest: Rank) -> Rank {
    if first is Same {
        rest
    } else {
        first
    }
}

/// The rank by a first key and, where that is the same, by what follows.
pub fn rank_followed_by(first: Rank, rest: Rank) -> (r: Rank)
    ensures
        r == followed_by(first, rest),
{
    match first {
        Rank::Same => rest,
        _ => first,
    }
}

/// How the optional string `a` stands to the optional string `b`.
pub fn rank_optional_texts(a: &Option<String>, b: &Option<String>) -> (r: Rank)
    ensures
        r == optional_rank(
            crate::manifest::optional_text(*a),
            crate::manifest::optional_text(*b),
        ),
{
    match (a, b) {
        (None, None) => Rank::Same,
        (None, Some(_)) => Rank::Before,
        (Some(_), None) => Rank::After,
        (Some(x), Some(y)) => rank_texts(x.as_str(), y.as_str()),
    }
}

/// Two texts have the same rank exactly when they are equal.
pub proof fn lemma_text_rank_same(a: Seq<char>, b: Seq<char>)
    ensures
        text_rank(a, b) is Same <==> a == b,
    decreases a.len(),
{
    if a.len() > 0 && b.len() > 0 {
        lemma_text_rank_same(a.drop_first(), b.drop_first());
        if a[0] == b[0] && a.drop_first() == b.drop_first() {
            assert(a.len() == b.len()) by {
                assert(a.drop_first().len() == b.drop_first().len());
            }
            assert forall|i: int| 0 <= i < a.len() implies a[i] == b[i] by {
                if i > 0 {
                    assert(a.drop_first()[i - 1] == a[i]);
                    assert(b.drop_first()[i - 1] == b[i]);
                }
            }
            assert(a =~= b);
        }
    }
    if a.len() == 0 && b.len() == 0 {
        assert(a =~= b);
    }
}

/// `a` is before `b` exactly when `b` is after `a`.
pub proof fn lemma_text_rank_flip(a: Seq<char>, b: Seq<char>)
    ensures
        text_rank(a, b) is Before <==> text_rank(b, a) is After,
    decreases a.len(),
{
    if a.len() > 0 && b.len() > 0 {
        lemma_text_rank_flip(a.drop_first(), b.drop_first());
    }
}

/// Before is transitive on texts.
pub proof fn lemma_text_rank_transitive(a: Seq<char>, b: Seq<char>, c: Seq<char>)
    requires
        text_rank(a, b) is Before,
        text_rank(b, c) is Before,
    ensures
        text_rank(a, c) is Before,
    decreases a.len(),
{
    if a.len() > 0 && b.len() > 0 && c.len() > 0 {
        if a[0] == b[0] && b[0] == c[0] {
            lemma_text_rank_transitive(a.drop_first(), b.drop_first(), c.drop_first());
        }
    }
}

/// Two optional texts have the same rank exactly when they are equal.
pub proof fn lemma_optional_rank_same(a: Option<Seq<char>>, b: Option<Seq<char>>)
    ensures
        optional_rank(a, b) is Same <==> a == b,
{
    if a is Some && b is Some {
        lemma_text_rank_same(a->Some_0, b->Some_0);
    }
}

/// `a` is before `b` exactly when `b` is after `a`.
pub proof fn lemma_optional_rank_flip(a: Option<Seq<char>>, b: Option<Seq<char>>)
    ensures
        optional_rank(a, b) is Before <==> optional_rank(b, a) is After,
{
    if a is Some && b is Some {
        lemma_text_rank_flip(a->Some_0, b->Some_0);
    }
}

/// Before is transitive on optional texts.
pub proof fn lemma_optional_rank_transitive(
    a: Option<Seq<char>>,
    b: Option<Seq<char>>,
    c: Option<Seq<char>>,
)
    requires
        optional_rank(a, b) is Before,
        optional_rank(b, c) is Before,
    ensures
        optional_rank(a, c) is Before,
{
    if a is Some && b is Some && c is Some {
        lemma_text_rank_transitive(a->Some_0, b->Some_0, c->Some_0);
    }
}

/// How the result `a` stands to the result `b`.
pub open spec fn match_rank(a: MatchView, b: MatchView) -> Rank {
    followed_by(
        text_rank(a.name, b.name),
        followed_by(
            text_rank(a.version, b.version),
            followed_by(
                optional_rank(a.matched_bin_path, b.matched_bin_path),
                optional_rank(a.matched_description, b.matched_description),
            ),
        ),
    )
}

/// `a` may stand before `b` in a sorted list.
pub open spec fn in_order(a: MatchView, b: MatchView) -> bool {
    !(match_rank(a, b) is After)
}

/// Every result of `s` may stand before each that follows it.
pub open spec fn sorted(s: Seq<MatchView>) -> bool {
    forall|i: int, j: int| 0 <= i < j < s.len() ==> in_order(s[i], s[j])
}

/// `t` is `s` in order: it is sorted and holds each result as often as `s`
/// does.
pub open spec fn is_sorted_form(s: Seq<MatchView>, t: Seq<MatchView>) -> bool {
    sorted(t) && t.to_multiset() == s.to_multiset()
}

/// The results of `s` in order.
pub open spec fn sorted_form(s: Seq<MatchView>) -> Seq<MatchView> {
    choose|t: Seq<MatchView>| is_sorted_form(s, t)
}

/// No two results of `s` have the same name.
pub open spec fn names_distinct(s: Seq<MatchView>) -> bool {
    forall|i: int, j: int| 0 <= i < j < s.len() ==> s[i].name != s[j].name
}

/// The names of `s` ascend strictly: each is before every name that follows.
pub open spec fn strictly_by_name(s: Seq<MatchView>) -> bool {
    forall|i: int, j: int| 0 <= i < j < s.len() ==> text_rank(s[i].name, s[j].name) is Before
}

/// The content of each result of `results`.
pub open spec fn match_views(results: Seq<MatchResult>) -> Seq<MatchView> {
    Seq::new(results.len(), |i: int| results[i]@)
}

/// Two results have the same rank exactly when they are equal.
pub proof fn lemma_match_rank_same(a: MatchView, b: MatchView)
    ensures
        match_rank(a, b) is Same <==> a == b,
{
    lemma_text_rank_same(a.name, b.name);
    lemma_text_rank_same(a.version, b.version);
    lemma_optional_rank_same(a.matched_bin_path, b.matched_bin_path);
    lemma_optional_rank_same(a.matched_description, b.matched_description);
}

/// `a` is before `b` exactly when `b` is after `a`.
pub proof fn lemma_match_rank_flip(a: MatchView, b: MatchView)
    ensures
        match_rank(a, b) is Before <==> match_rank(b, a) is After,
{
    lemma_text_rank_same(a.name, b.name);
    lemma_text_rank_same(b.name, a.name);
    lemma_text_rank_flip(a.name, b.name);
    lemma_text_rank_same(a.version, b.version);
    lemma_text_rank_same(b.version, a.version);
    lemma_text_rank_flip(a.version, b.version);
    lemma_optional_rank_same(a.matched_bin_path, b.matched_bin_path);
    lemma_optional_rank_same(b.matched_bin_path, a.matched_bin_path);
    lemma_optional_rank_flip(a.matched_bin_path, b.matched_bin_path);
    lemma_optional_rank_flip(a.matched_description, b.matched_description);
}

/// Of two results, one may stand before the other.
pub proof fn lemma_in_order_total(a: MatchView, b: MatchView)
    ensures
        in_order(a, b) || in_order(b, a),
{
    lemma_match_rank_flip(b, a);
}

/// Two results that may each stand before the other are equal.
pub proof fn lemma_in_order_antisymmetric(a: MatchView, b: MatchView)
    requires
        in_order(a, b),
        in_order(b, a),
    ensures
        a == b,
{
    lemma_match_rank_flip(a, b);
    lemma_match_rank_same(a, b);
}

/// Before is transitive on results.
pub proof fn lemma_match_rank_transitive(a: MatchView, b: MatchView, c: MatchView)
    requires
        match_rank(a, b) is Before,
        match_rank(b, c) is Before,
    ensures
        match_rank(a, c) is Before,
{
    lemma_text_rank_same(a.name, b.name);
    lemma_text_rank_same(b.name, c.name);
    lemma_text_rank_same(a.name, c.name);
    if text_rank(a.name, b.name) is Before && text_rank(b.name, c.name) is Before {
        lemma_text_rank_transitive(a.name, b.name, c.name);
    }
    lemma_text_rank_same(a.version, b.version);
    lemma_text_rank_same(b.version, c.version);
    lemma_text_rank_same(a.version, c.version);
    if text_rank(a.version, b.version) is Before && text_rank(b.version, c.version) is Before {
        lemma_text_rank_transitive(a.version, b.version, c.version);
    }
    lemma_optional_rank_same(a.matched_bin_path, b.matched_bin_path);
    lemma_optional_rank_same(b.matched_bin_path, c.matched_bin_path);
    lemma_optional_rank_same(a.matched_bin_path, c.matched_bin_path);
    if optional_rank(a.matched_bin_path, b.matched_bin_path) is Before && optional_rank(
        b.matched_bin_path,
        c.matched_bin_path,
    ) is Before {
        lemma_optional_rank_transitive(
            a.matched_bin_path,
            b.matched_bin_path,
            c.matched_bin_path,
        );
    }
    lemma_optional_rank_same(a.matched_description, b.matched_description);
    lemma_optional_rank_same(b.matched_description, c.matched_description);
    if optional_rank(a.matched_description, b.matched_description) is Before && optional_rank(
        b.matched_description,
        c.matched_description,
    ) is Before {
        lemma_optional_rank_transitive(
            a.matched_description,
            b.matched_description,
            c.matched_description,
        );
    }
}

/// The order of results is transitive.
pub proof fn lemma_in_order_transitive(a: MatchView, b: MatchView, c: MatchView)
    requires
        in_order(a, b),
        in_order(b, c),
    ensures
        in_order(a, c),
{
    lemma_match_rank_same(a, b);
    lemma_match_rank_same(b, c);
    if match_rank(a, b) is Before && match_rank(b, c) is Before {
        lemma_match_rank_transitive(a, b, c);
    }
}

/// A sorted list gives the names in order.
pub proof fn lemma_sorted_lists_names_in_order(s: Seq<MatchView>, i: int, j: int)
    requires
        sorted(s),
        0 <= i < j < s.len(),
    ensures
        !(text_rank(s[i].name, s[j].name) is After),
{
    assert(in_order(s[i], s[j]));
}

/// A list of results has one sorted form: two sorted lists that hold the
/// same results, each as often as the other, are the same list.
pub proof fn lemma_sorted_unique(s: Seq<MatchView>, t: Seq<MatchView>)
    requires
        sorted(s),
        sorted(t),
        s.to_multiset() == t.to_multiset(),
    ensures
        s == t,
    decreases s.len(),
{
    s.to_multiset_ensures();
    t.to_multiset_ensures();
    if s.len() == 0 {
        assert(s =~= t);
    } else {
        assert(s.contains(s[0]));
        assert(s.to_multiset().count(s[0]) > 0);
        assert(t.to_multiset().count(s[0]) > 0);
        assert(t.contains(s[0]));
        let j = choose|j: int| 0 <= j < t.len() && t[j] == s[0];
        assert(in_order(t[0], s[0])) by {
            if j == 0 {
                lemma_match_rank_same(t[0], s[0]);
            }
        }
        assert(t.contains(t[0]));
        assert(t.to_multiset().count(t[0]) > 0);
        assert(s.to_multiset().count(t[0]) > 0);
        assert(s.contains(t[0]));
        let k = choose|k: int| 0 <= k < s.len() && s[k] == t[0];
        assert(in_order(s[0], t[0])) by {
            if k == 0 {
                lemma_match_rank_same(s[0], t[0]);
            }
        }
        lemma_in_order_antisymmetric(s[0], t[0]);
        assert(s.remove(0) =~= s.drop_first());
        assert(t.remove(0) =~= t.drop_first());
        assert(sorted(s.drop_first())) by {
            assert forall|a: int, b: int| 0 <= a < b < s.drop_first().len() implies in_order(
                s.drop_first()[a],
                s.drop_first()[b],
            ) by {
                assert(in_order(s[a + 1], s[b + 1]));
            }
        }
        assert(sorted(t.drop_first())) by {
            assert forall|a: int, b: int| 0 <= a < b < t.drop_first().len() implies in_order(
                t.drop_first()[a],
                t.drop_first()[b],
            ) by {
                assert(in_order(t[a + 1], t[b + 1]));
            }
        }
        lemma_sorted_unique(s.drop_first(), t.drop_first());
        assert(s.len() == t.len());
        assert forall|i: int| 0 <= i < s.len() implies s[i] == t[i] by {
            if i > 0 {
                assert(s.drop_first()[i - 1] == s[i]);
                assert(t.drop_first()[i - 1] == t[i]);
            }
        }
        assert(s =~= t);
    }
}

/// `p` is a place at which `x` can go into the sorted list `t`: what stands
/// before it may stand before `x`, and `x` may stand before what follows.
pub open spec fn is_insertion_point(t: Seq<MatchView>, x: MatchView, p: int) -> bool {
    &&& 0 <= p <= t.len()
    &&& forall|i: int| 0 <= i < p ==> in_order(#[trigger] t[i], x)
    &&& forall|i: int| p <= i < t.len() ==> in_order(x, #[trigger] t[i])
}

/// Every result has a place in every sorted list.
pub proof fn lemma_insertion_point_exists(t: Seq<MatchView>, x: MatchView)
    requires
        sorted(t),
    ensures
        exists|p: int| is_insertion_point(t, x, p),
    decreases t.len(),
{
    if t.len() == 0 {
        assert(is_insertion_point(t, x, 0));
    } else if in_order(t.last(), x) {
        assert forall|i: int| 0 <= i < t.len() implies in_order(#[trigger] t[i], x) by {
            if i < t.len() - 1 {
                lemma_in_order_transitive(t[i], t.last(), x);
            }
        }
        assert(is_insertion_point(t, x, t.len() as int));
    } else {
        let shorter = t.drop_last();
        assert(sorted(shorter)) by {
            assert forall|i: int, j: int| 0 <= i < j < shorter.len() implies in_order(
                shorter[i],
                shorter[j],
            ) by {
                assert(in_order(t[i], t[j]));
            }
        }
        lemma_insertion_point_exists(shorter, x);
        let p = choose|p: int| is_insertion_point(shorter, x, p);
        lemma_in_order_total(t.last(), x);
        assert forall|i: int| 0 <= i < p implies in_order(#[trigger] t[i], x) by {
            assert(in_order(shorter[i], x));
        }
        assert forall|i: int| p <= i < t.len() implies in_order(x, #[trigger] t[i]) by {
            if i < shorter.len() {
                assert(in_order(x, shorter[i]));
            }
        }
        assert(is_insertion_point(t, x, p));
    }
}

/// A sorted list with one more result, put at a place where it can go, is
/// sorted.
pub proof fn lemma_insert_keeps_sorted(t: Seq<MatchView>, x: MatchView, p: int)
    requires
        sorted(t),
        is_insertion_point(t, x, p),
    ensures
        sorted(t.insert(p, x)),
{
    let longer = t.insert(p, x);
    assert forall|i: int, j: int| 0 <= i < j < longer.len() implies in_order(
        longer[i],
        longer[j],
    ) by {
        if j < p {
            assert(in_order(t[i], t[j]));
        } else if j == p {
            assert(in_order(t[i], x));
        } else if i < p {
            assert(in_order(t[i], t[j - 1]));
        } else if i == p {
            assert(in_order(x, t[j - 1]));
        } else {
            assert(in_order(t[i - 1], t[j - 1]));
        }
    }
}

/// Every list of results has a sorted form.
pub proof fn lemma_sorted_form_exists(s: Seq<MatchView>)
    ensures
        is_sorted_form(s, sorted_form(s)),
    decreases s.len(),
{
    if s.len() == 0 {
        assert(is_sorted_form(s, s));
    } else {
        let shorter = s.drop_last();
        let x = s.last();
        lemma_sorted_form_exists(shorter);
        let t = sorted_form(shorter);
        lemma_insertion_point_exists(t, x);
        let p = choose|p: int| is_insertion_point(t, x, p);
        lemma_insert_keeps_sorted(t, x, p);
        to_multiset_insert(t, p, x);
        assert(s =~= shorter.push(x));
        to_multiset_build(shorter, x);
        assert(is_sorted_form(s, t.insert(p, x)));
    }
}

/// Lists that hold the same results, each as often as the other, have the
/// same sorted form: the order in which results are found does not show in
/// the order in which they are listed.
pub proof fn lemma_sorted_form_forgets_order(s: Seq<MatchView>, t: Seq<MatchView>)
    requires
        s.to_multiset() == t.to_multiset(),
    ensures
        sorted_form(s) == sorted_form(t),
{
    lemma_sorted_form_exists(s);
    lemma_sorted_form_exists(t);
    lemma_sorted_unique(sorted_form(s), sorted_form(t));
}

/// Where no two results have the same name, none have in any list that holds
/// the same results, each as often.
pub proof fn lemma_names_stay_distinct(s: Seq<MatchView>, t: Seq<MatchView>)
    requires
        names_distinct(s),
        s.to_multiset() == t.to_multiset(),
    ensures
        names_distinct(t),
    decreases t.len(),
{
    s.to_multiset_ensures();
    t.to_multiset_ensures();
    if t.len() > 0 {
        let x = t.last();
        assert(t.contains(x));
        assert(t.to_multiset().count(x) > 0);
        assert(s.contains(x));
        let k = choose|k: int| 0 <= k < s.len() && s[k] == x;
        let s1 = s.remove(k);
        let t1 = t.drop_last();
        assert(t1 =~= t.remove(t.len() - 1));
        assert(names_distinct(s1)) by {
            assert forall|i: int, j: int| 0 <= i < j < s1.len() implies s1[i].name
                != s1[j].name by {
                let a = if i < k { i } else { i + 1 };
                let b = if j < k { j } else { j + 1 };
                assert(s1[i] == s[a] && s1[j] == s[b]);
            }
        }
        lemma_names_stay_distinct(s1, t1);
        s1.to_multiset_ensures();
        t1.to_multiset_ensures();
        assert forall|i: int, j: int| 0 <= i < j < t.len() implies t[i].name != t[j].name by {
            if j < t.len() - 1 {
                assert(t1[i] == t[i] && t1[j] == t[j]);
            } else {
                assert(t1[i] == t[i]);
                assert(t1.contains(t[i]));
                assert(t1.to_multiset().count(t[i]) > 0);
                assert(s1.contains(t[i]));
                let m = choose|m: int| 0 <= m < s1.len() && s1[m] == t[i];
                let a = if m < k { m } else { m + 1 };
                assert(s1[m] == s[a]);
                if a < k {
                    assert(s[a].name != s[k].name);
                } else {
                    assert(s[k].name != s[a].name);
                }
            }
        }
    }
}

/// A sorted list in which no two results have the same name lists the names
/// in strictly ascending order.
pub proof fn lemma_sorted_distinct_names_ascend(s: Seq<MatchView>)
    requires
        sorted(s),
        names_distinct(s),
    ensures
        strictly_by_name(s),
{
    assert forall|i: int, j: int| 0 <= i < j < s.len() implies text_rank(
        s[i].name,
        s[j].name,
    ) is Before by {
        assert(in_order(s[i], s[j]));
        lemma_text_rank_same(s[i].name, s[j].name);
    }
}

/// A list that is `s` in order is the sorted form of `s`.
pub proof fn lemma_sorted_form_is(s: Seq<MatchView>, t: Seq<MatchView>)
    requires
        is_sorted_form(s, t),
    ensures
        sorted_form(s) == t,
{
    lemma_sorted_unique(sorted_form(s), t);
}

/// How the result `a` stands to the result `b`.
pub fn rank_matches(a: &MatchResult, b: &MatchResult) -> (r: Rank)
    ensures
        r == match_rank(a@, b@),
{
    let by_name = rank_texts(a.name.as_str(), b.name.as_str());
    let by_version = rank_texts(a.version.as_str(), b.version.as_str());
    let by_bin = rank_optional_texts(&a.matched_bin_path, &b.matched_bin_path);
    let by_description = rank_optional_texts(&a.matched_description, &b.matched_description);
    rank_followed_by(
        by_name,
        rank_followed_by(by_version, rank_followed_by(by_bin, by_description)),
    )
}

/// Where `x` goes into a sorted list: after every result that is before it.
fn insertion_point(results: &Vec<MatchResult>, x: &MatchResult) -> (p: usize)
    requires
        sorted(match_views(results@)),
    ensures
        is_insertion_point(match_views(results@), x@, p as int),
{
    let ghost views = match_views(results@);
    let mut p: usize = 0;
    while p < results.len()
        invariant
            p <= results.len(),
            views == match_views(results@),
            sorted(views),
            forall|i: int| 0 <= i < p ==> in_order(#[trigger] views[i], x@),
        decreases results.len() - p,
    {
        match rank_matches(&results[p], x) {
            Rank::Before => {},
            _ => {
                proof {
                    lemma_match_rank_flip(views[p as int], x@);
                    assert forall|i: int| p <= i < results.len() implies in_order(
                        x@,
                        #[trigger] views[i],
                    ) by {
                        if i > p {
                            lemma_in_order_transitive(x@, views[p as int], views[i]);
                        }
                    }
                }
                return p;
            },
        }
        p += 1;
    }
    p
}

/// The results in order: the sorted list that holds each result as often as
/// `results` does.
pub fn sort_matches(results: Vec<MatchResult>) -> (r: Vec<MatchResult>)
    ensures
        sorted(match_views(r@)),
        match_views(r@).to_multiset() == match_views(results@).to_multiset(),
        match_views(r@) == sorted_form(match_views(results@)),
{
    let mut rest = results;
    let mut out: Vec<MatchResult> = Vec::new();
    proof {
        match_views(out@).to_multiset_ensures();
    }
    loop
        invariant
            sorted(match_views(out@)),
            match_views(out@).to_multiset().add(match_views(rest@).to_multiset())
                == match_views(results@).to_multiset(),
        decreases rest.len(),
    {
        let ghost rest_before = match_views(rest@);
        let ghost out_before = match_views(out@);
        match rest.pop() {
            Some(x) => {
                let p = insertion_point(&out, &x);
                out.insert(p, x);
                proof {
                    lemma_insert_keeps_sorted(out_before, x@, p as int);
                    assert(rest_before =~= match_views(rest@).push(x@));
                    to_multiset_build(match_views(rest@), x@);
                    assert(match_views(out@) =~= out_before.insert(p as int, x@));
                    to_multiset_insert(out_before, p as int, x@);
                }
            },
            None => {
                proof {
                    match_views(rest@).to_multiset_ensures();
                    assert(match_views(out@).to_multiset().add(match_views(rest@).to_multiset())
                        =~= match_views(out@).to_multiset());
                    lemma_sorted_form_is(match_views(results@), match_views(out@));
                }
                return out;
            },
        }
    }
}

} // verus!
