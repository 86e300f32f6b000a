//! Selecting the lines of a text that contain a query.

use vstd::prelude::*;

use crate::config::Config;
use crate::lines::spec_lines;
use crate::lines::split_lines;
use crate::text::chars_of;
use crate::text::contains_chars;
use crate::text::is_substring;
use crate::text::lemma_lower_preserves_substring;
use crate::text::lower;
use crate::text::lower_chars;

verus! {

/// The lines a case-sensitive search keeps: those containing the query.
pub open spec fn sensitive_pred(query: Seq<char>) -> spec_fn(Seq<char>) -> bool {
    |line: Seq<char>| is_substring(line, query)
}

/// The lines a case-insensitive search keeps: those whose lowercased text
/// contains the lowercased query.
pub open spec fn insensitive_pred(query: Seq<char>) -> spec_fn(Seq<char>) -> bool {
    |line: Seq<char>| is_substring(lower(line), lower(query))
}

/// The ordered subsequence of lines of `contents` that contain `query`.
pub open spec fn sensitive_matches(query: Seq<char>, contents: Seq<char>) -> Seq<Seq<char>> {
    spec_lines(contents).filter(sensitive_pred(query))
}

/// The ordered subsequence of lines of `contents` that contain `query`
/// up to lowercasing.
pub open spec fn insensitive_matches(query: Seq<char>, contents: Seq<char>) -> Seq<Seq<char>> {
    spec_lines(contents).filter(insensitive_pred(query))
}

/// The lines of `contents` that contain `query` as a contiguous substring,
/// in their original order and original text.
pub fn search<'a>(query: &str, contents: &'a str) -> (results: Vec<&'a str>)
    ensures
        results.deep_view() == sensitive_matches(query@, contents@),
{
    let q = chars_of(query);
    let lines = split_lines(contents);
    let ghost d = lines.deep_view();
    let ghost pred = sensitive_pred(query@);
    let mut results: Vec<&'a str> = Vec::new();
    let mut i: usize = 0;
    proof {
        assert(results.deep_view() =~= Seq::<Seq<char>>::empty());
        lemma_filter_take_step(d, pred, 0);
        assert(d.take(0).filter(pred) =~= Seq::<Seq<char>>::empty());
    }
    while i < lines.len()
        invariant
            i <= lines@.len(),
            q@ == query@,
            d == lines.deep_view(),
            d.len() == lines@.len(),
            pred == sensitive_pred(query@),
            results.deep_view() == d.take(i as int).filter(pred),
        decreases lines@.len() - i,
    {
        let line: &'a str = lines[i];
        let lc = chars_of(line);
        let ghost old_deep = results.deep_view();
        proof {
            lemma_filter_take_step(d, pred, i as int);
            assert(line@ == d[i as int]);
        }
        if contains_chars(&lc, &q) {
            results.push(line);
            proof {
                assert(results.deep_view() =~= old_deep.push(line@));
            }
        }
        i = i + 1;
    }
    proof {
        assert(d.take(d.len() as int) =~= d);
    }
    results
}

/// The lines of `contents` that contain `query` up to ASCII lowercasing,
/// in their original order and original (not lowercased) text.
pub fn search_case_insensitive<'a>(query: &str, contents: &'a str) -> (results: Vec<&'a str>)
    ensures
        results.deep_view() == insensitive_matches(query@, contents@),
{
    let q = lower_chars(query);
    let lines = split_lines(contents);
    let ghost d = lines.deep_view();
    let ghost pred = insensitive_pred(query@);
    let mut results: Vec<&'a str> = Vec::new();
    let mut i: usize = 0;
    proof {
        assert(results.deep_view() =~= Seq::<Seq<char>>::empty());
        lemma_filter_take_step(d, pred, 0);
        assert(d.take(0).filter(pred) =~= Seq::<Seq<char>>::empty());
    }
    while i < lines.len()
        invariant
            i <= lines@.len(),
            q@ == lower(query@),
            d == lines.deep_view(),
            d.len() == lines@.len(),
            pred == insensitive_pred(query@),
            results.deep_view() == d.take(i as int).filter(pred),
        decreases lines@.len() - i,
    {
        let line: &'a str = lines[i];
        let lc = lower_chars(line);
        let ghost old_deep = results.deep_view();
        proof {
            lemma_filter_take_step(d, pred, i as int);
            assert(line@ == d[i as int]);
        }
        if contains_chars(&lc, &q) {
            results.push(line);
            proof {
                assert(results.deep_view() =~= old_deep.push(line@));
            }
        }
        i = i + 1;
    }
    proof {
        assert(d.take(d.len() as int) =~= d);
    }
    results
}

/// The search a configuration asks for, on the contents of its file.
pub fn run_search<'a>(config: &Config, contents: &'a str) -> (results: Vec<&'a str>)
    ensures
        config.case_sensitive ==> results.deep_view() == sensitive_matches(
            config.query@,
            contents@,
        ),
        !config.case_sensitive ==> results.deep_view() == insensitive_matches(
            config.query@,
            contents@,
        ),
{
    if config.case_sensitive {
        search(config.query.as_str(), contents)
    } else {
        search_case_insensitive(config.query.as_str(), contents)
    }
}

/// Filtering one more element keeps the filtered prefix and appends the
/// element exactly when the predicate holds of it.
proof fn lemma_filter_take_step(s: Seq<Seq<char>>, pred: spec_fn(Seq<char>) -> bool, i: int)
    requires
        0 <= i <= s.len(),
    ensures
        i == 0 ==> s.take(0).filter(pred) == Seq::<Seq<char>>::empty(),
        i < s.len() ==> s.take(i + 1).filter(pred) == (if pred(s[i]) {
            s.take(i).filter(pred).push(s[i])
        } else {
            s.take(i).filter(pred)
        }),
{
    reveal(Seq::filter);
    if i == 0 {
        assert(s.take(0).len() == 0);
    }
    if i < s.len() {
        let t = s.take(i + 1);
        assert(t.drop_last() =~= s.take(i));
        assert(t.last() == s[i]);
    }
}

/// A filtered sequence is no longer than one filtered by a weaker predicate.
proof fn lemma_filter_len_monotone<A>(s: Seq<A>, p: spec_fn(A) -> bool, q: spec_fn(A) -> bool)
    requires
        forall|x: A| #[trigger] p(x) ==> q(x),
    ensures
        s.filter(p).len() <= s.filter(q).len(),
    decreases s.len(),
{
    reveal(Seq::filter);
    if s.len() > 0 {
        lemma_filter_len_monotone(s.drop_last(), p, q);
    }
}

/// A filter that keeps every element of a sequence returns it unchanged.
proof fn lemma_filter_all<A>(s: Seq<A>, p: spec_fn(A) -> bool)
    requires
        forall|i: int| 0 <= i < s.len() ==> p(#[trigger] s[i]),
    ensures
        s.filter(p) == s,
    decreases s.len(),
{
    reveal(Seq::filter);
    if s.len() > 0 {
        assert(forall|i: int| 0 <= i < s.drop_last().len() ==> #[trigger] s.drop_last()[i] == s[i]);
        lemma_filter_all(s.drop_last(), p);
        assert(s.filter(p) =~= s);
    }
}

/// A case-insensitive search matches at least as many lines as a
/// case-sensitive search for the same query in the same text.
pub proof fn lemma_insensitive_is_superset(query: Seq<char>, contents: Seq<char>)
    ensures
        sensitive_matches(query, contents).len() <= insensitive_matches(query, contents).len(),
{
    let p = sensitive_pred(query);
    let q = insensitive_pred(query);
    assert forall|line: Seq<char>| #[trigger] p(line) implies q(line) by {
        lemma_lower_preserves_substring(line, query);
    }
    lemma_filter_len_monotone(spec_lines(contents), p, q);
}

/// An empty query matches every line of every text, in both modes.
pub proof fn lemma_empty_query_matches_all(query: Seq<char>, contents: Seq<char>)
    requires
        query.len() == 0,
    ensures
        sensitive_matches(query, contents) == spec_lines(contents),
        insensitive_matches(query, contents) == spec_lines(contents),
{
    let s = spec_lines(contents);
    assert forall|i: int| 0 <= i < s.len() implies sensitive_pred(query)(#[trigger] s[i]) by {
        assert(s[i].subrange(0, 0) =~= query);
        assert(crate::text::matches_at(s[i], query, 0));
    }
    assert forall|i: int| 0 <= i < s.len() implies insensitive_pred(query)(#[trigger] s[i]) by {
        assert(lower(s[i]).subrange(0, 0) =~= lower(query));
        assert(crate::text::matches_at(lower(s[i]), lower(query), 0));
    }
    lemma_filter_all(s, sensitive_pred(query));
    lemma_filter_all(s, insensitive_pred(query));
}

} // verus!
