//! The search engine: which lines of a text contain a query.

use vstd::prelude::*;

use crate::highlight::ci_match_at;
use crate::highlight::find_first_ci;
use crate::highlight::first_hl_span;
use crate::highlight::hl_span_at;
use crate::highlight::highlighted_output;
use crate::highlight::wrap_span;
use crate::lines::lines_of;
use crate::lines::split_lines;
use crate::lines::views_of;
use crate::text::chars_of;
use crate::text::contains_chars;
use crate::text::contains_seq;
use crate::text::find_first_cs;
use crate::text::lemma_contains_lower;
use crate::text::lower_of;
use crate::text::match_at;
use crate::text::to_lower_chars;

verus! {

/// The case-sensitive match predicate for a query.
pub open spec fn match_pred(q: Seq<char>) -> spec_fn(Seq<char>) -> bool {
    |l: Seq<char>| contains_seq(l, q)
}

/// The case-insensitive match predicate for a query: the lowercase form
/// of the line contains the lowercase form of the query.
pub open spec fn match_pred_ci(q: Seq<char>) -> spec_fn(Seq<char>) -> bool {
    |l: Seq<char>| contains_seq(lower_of(l), lower_of(q))
}

/// The lines of `c` that contain `q`, in order.
pub open spec fn spec_search(q: Seq<char>, c: Seq<char>) -> Seq<Seq<char>> {
    lines_of(c).filter(match_pred(q))
}

/// The lines of `c` that contain `q` ignoring case, in order.
pub open spec fn spec_search_ci(q: Seq<char>, c: Seq<char>) -> Seq<Seq<char>> {
    lines_of(c).filter(match_pred_ci(q))
}

/// Appending one element to a filtered sequence.
proof fn lemma_filter_push<A>(s: Seq<A>, x: A, pred: spec_fn(A) -> bool)
    ensures
        s.push(x).filter(pred) == if pred(x) {
            s.filter(pred).push(x)
        } else {
            s.filter(pred)
        },
{
    reveal(Seq::filter);
    assert(s.push(x).drop_last() =~= s);
}

/// Returns every line of `contents` that contains `query` as a
/// contiguous substring, in the order the lines appear.
pub fn search<'a>(query: &str, contents: &'a str) -> (r: Vec<&'a str>)
    ensures
        views_of(r@) == spec_search(query@, contents@),
{
    let qc = chars_of(query);
    let lines = split_lines(contents);
    let ghost lviews = views_of(lines@);
    let mut r: Vec<&'a str> = Vec::new();
    let mut i: usize = 0;
    proof {
        assert(views_of(r@) =~= lviews.subrange(0, 0).filter(match_pred(query@))) by {
            assert(lviews.subrange(0, 0) =~= Seq::<Seq<char>>::empty());
            reveal(Seq::filter);
        }
    }
    while i < lines.len()
        invariant
            i <= lines@.len(),
            lviews == views_of(lines@),
            qc@ == query@,
            views_of(r@) == lviews.subrange(0, i as int).filter(match_pred(query@)),
        decreases lines@.len() - i,
    {
        let line = lines[i];
        let lc = chars_of(line);
        proof {
            assert(lviews[i as int] == line@);
            assert(lviews.subrange(0, i + 1) =~= lviews.subrange(0, i as int).push(line@));
            lemma_filter_push(lviews.subrange(0, i as int), line@, match_pred(query@));
        }
        if contains_chars(&lc, &qc) {
            r.push(line);
            proof {
                assert(views_of(r@) =~= views_of(r@.drop_last()).push(line@));
            }
        }
        i += 1;
    }
    proof {
        assert(lviews.subrange(0, lines@.len() as int) =~= lviews);
    }
    r
}

/// Returns every line of `contents` that contains `query` ignoring
/// case, in the order the lines appear; the returned lines keep their
/// original casing.
pub fn search_case_insensitive<'a>(query: &str, contents: &'a str) -> (r: Vec<&'a str>)
    ensures
        views_of(r@) == spec_search_ci(query@, contents@),
{
    let ql = to_lower_chars(query);
    let lines = split_lines(contents);
    let ghost lviews = views_of(lines@);
    let mut r: Vec<&'a str> = Vec::new();
    let mut i: usize = 0;
    proof {
        assert(views_of(r@) =~= lviews.subrange(0, 0).filter(match_pred_ci(query@))) by {
            assert(lviews.subrange(0, 0) =~= Seq::<Seq<char>>::empty());
            reveal(Seq::filter);
        }
    }
    while i < lines.len()
        invariant
            i <= lines@.len(),
            lviews == views_of(lines@),
            ql@ == lower_of(query@),
            views_of(r@) == lviews.subrange(0, i as int).filter(match_pred_ci(query@)),
        decreases lines@.len() - i,
    {
        let line = lines[i];
        let ll = to_lower_chars(line);
        proof {
            assert(lviews[i as int] == line@);
            assert(lviews.subrange(0, i + 1) =~= lviews.subrange(0, i as int).push(line@));
            lemma_filter_push(lviews.subrange(0, i as int), line@, match_pred_ci(query@));
        }
        if contains_chars(&ll, &ql) {
            r.push(line);
            proof {
                assert(views_of(r@) =~= views_of(r@.drop_last()).push(line@));
            }
        }
        i += 1;
    }
    proof {
        assert(lviews.subrange(0, lines@.len() as int) =~= lviews);
    }
    r
}

/// The views of a sequence of owned strings.
pub open spec fn string_views(ss: Seq<String>) -> Seq<Seq<char>> {
    ss.map_values(|s: String| s@)
}

/// The match predicate that a mode selects.
pub open spec fn mode_pred(q: Seq<char>, ignore_case: bool) -> spec_fn(Seq<char>) -> bool {
    if ignore_case {
        match_pred_ci(q)
    } else {
        match_pred(q)
    }
}

/// The lines that a search in the given mode reports.
pub open spec fn spec_matched(q: Seq<char>, c: Seq<char>, ignore_case: bool) -> Seq<Seq<char>> {
    lines_of(c).filter(mode_pred(q, ignore_case))
}

/// Highlights the first literal occurrence of `qc@` in `line`.
fn hl_line_cs(line: &str, lc: &Vec<char>, qc: &Vec<char>) -> (out: String)
    requires
        lc@ == line@,
    ensures
        highlighted_output(line@, qc@, false, out@),
{
    let m = qc.len();
    let n = lc.len();
    match find_first_cs(lc, qc) {
        Some(a) => {
            proof {
                assert(a + m <= n);
                assert(hl_span_at(line@, qc@, false, a as int, a + m));
                assert forall|i2: int, m2: int|
                    hl_span_at(line@, qc@, false, i2, m2) implies a <= i2 by {
                    assert(match_at(lc@, qc@, i2));
                }
            }
            let out = wrap_span(line, a, a + m);
            proof {
                assert(first_hl_span(line@, qc@, false, a as int, a + m));
            }
            out
        },
        None => {
            proof {
                assert forall|i2: int, m2: int| !hl_span_at(line@, qc@, false, i2, m2) by {
                    if match_at(line@, qc@, i2) {
                        assert(contains_seq(lc@, qc@));
                    }
                }
            }
            String::from_str(line)
        },
    }
}

/// Highlights the first span of `line` whose lowercase form is `ql@`,
/// the lowercase form of the query `q`.
fn hl_line_ci(line: &str, lc: &Vec<char>, ql: &Vec<char>, Ghost(q): Ghost<Seq<char>>) -> (out:
    String)
    requires
        lc@ == line@,
        ql@ == lower_of(q),
    ensures
        highlighted_output(line@, q, true, out@),
{
    match find_first_ci(lc, ql) {
        Some(p) => {
            proof {
                assert(hl_span_at(line@, q, true, p.0 as int, p.1 as int));
                assert forall|i2: int, m2: int|
                    hl_span_at(line@, q, true, i2, m2) implies p.0 <= i2 by {
                    assert(ci_match_at(lc@, ql@, i2, m2));
                }
                assert forall|m2: int|
                    hl_span_at(line@, q, true, p.0 as int, m2) implies p.1 <= m2 by {
                    assert(ci_match_at(lc@, ql@, p.0 as int, m2));
                }
            }
            let out = wrap_span(line, p.0, p.1);
            proof {
                assert(first_hl_span(line@, q, true, p.0 as int, p.1 as int));
            }
            out
        },
        None => {
            proof {
                assert forall|i2: int, m2: int| !hl_span_at(line@, q, true, i2, m2) by {
                    assert(!ci_match_at(lc@, ql@, i2, m2));
                }
            }
            String::from_str(line)
        },
    }
}

/// Searches `contents` for `query`, case-insensitively when
/// `ignore_case` is set. Each reported line keeps its original text;
/// when `highlight` is set, the first matched span of each reported
/// line is wrapped in terminal bold markers instead.
pub fn search_with(query: &str, contents: &str, ignore_case: bool, highlight: bool) -> (r: Vec<
    String,
>)
    ensures
        r@.len() == spec_matched(query@, contents@, ignore_case).len(),
        !highlight ==> string_views(r@) == spec_matched(query@, contents@, ignore_case),
        highlight ==> forall|k: int|
            0 <= k < r@.len() ==> highlighted_output(
                spec_matched(query@, contents@, ignore_case)[k],
                query@,
                ignore_case,
                (#[trigger] r@[k])@,
            ),
{
    let qc = chars_of(query);
    let ql = to_lower_chars(query);
    let lines = split_lines(contents);
    let ghost lviews = views_of(lines@);
    let ghost pred = mode_pred(query@, ignore_case);
    let mut r: Vec<String> = Vec::new();
    let mut i: usize = 0;
    proof {
        assert(lviews.subrange(0, 0) =~= Seq::<Seq<char>>::empty());
        assert(lviews.subrange(0, 0).filter(pred) =~= Seq::<Seq<char>>::empty()) by {
            reveal(Seq::filter);
        }
        assert(string_views(r@) =~= Seq::<Seq<char>>::empty());
    }
    while i < lines.len()
        invariant
            i <= lines@.len(),
            lviews == views_of(lines@),
            qc@ == query@,
            ql@ == lower_of(query@),
            pred == mode_pred(query@, ignore_case),
            r@.len() == lviews.subrange(0, i as int).filter(pred).len(),
            !highlight ==> string_views(r@) == lviews.subrange(0, i as int).filter(pred),
            highlight ==> forall|k: int|
                0 <= k < r@.len() ==> highlighted_output(
                    lviews.subrange(0, i as int).filter(pred)[k],
                    query@,
                    ignore_case,
                    (#[trigger] r@[k])@,
                ),
        decreases lines@.len() - i,
    {
        let line = lines[i];
        let lc = chars_of(line);
        let is_match = if ignore_case {
            let ll = to_lower_chars(line);
            contains_chars(&ll, &ql)
        } else {
            contains_chars(&lc, &qc)
        };
        proof {
            assert(lviews[i as int] == line@);
            assert(lviews.subrange(0, i + 1) =~= lviews.subrange(0, i as int).push(line@));
            lemma_filter_push(lviews.subrange(0, i as int), line@, pred);
            assert(pred(line@) == is_match);
        }
        if is_match {
            let out: String = if !highlight {
                String::from_str(line)
            } else if ignore_case {
                hl_line_ci(line, &lc, &ql, Ghost(query@))
            } else {
                hl_line_cs(line, &lc, &qc)
            };
            proof {
                if highlight {
                    assert(highlighted_output(line@, query@, ignore_case, out@));
                }
            }
            r.push(out);
            proof {
                assert(string_views(r@) =~= string_views(r@.drop_last()).push(out@));
            }
        }
        i += 1;
    }
    proof {
        assert(lviews.subrange(0, lines@.len() as int) =~= lviews);
    }
    r
}

/// A filter whose predicate holds everywhere keeps the whole sequence.
proof fn lemma_filter_all<A>(s: Seq<A>, pred: spec_fn(A) -> bool)
    requires
        forall|i: int| 0 <= i < s.len() ==> pred(#[trigger] s[i]),
    ensures
        s.filter(pred) == s,
    decreases s.len(),
{
    reveal(Seq::filter);
    if s.len() > 0 {
        lemma_filter_all(s.drop_last(), pred);
        assert(s.filter(pred) =~= s);
    }
}

/// An element of a filtered sequence comes from the original sequence
/// and satisfies the predicate.
proof fn lemma_filter_mem<A>(s: Seq<A>, pred: spec_fn(A) -> bool, x: A)
    requires
        s.filter(pred).contains(x),
    ensures
        s.contains(x),
        pred(x),
    decreases s.len(),
{
    reveal(Seq::filter);
    if s.len() == 0 {
    } else {
        let dl = s.drop_last();
        if pred(s.last()) && x == s.last() {
            assert(s[s.len() - 1] == x);
        } else {
            assert(dl.filter(pred).contains(x)) by {
                let f = s.filter(pred);
                let i = choose|i: int| 0 <= i < f.len() && f[i] == x;
                assert(dl.filter(pred)[i] == x);
            }
            lemma_filter_mem(dl, pred, x);
            let j = choose|j: int| 0 <= j < dl.len() && dl[j] == x;
            assert(s[j] == x);
        }
    }
}

/// An empty query matches every line: searching for it, with or without
/// regard to case, returns every line of the content.
pub proof fn lemma_empty_query_matches_all(q: Seq<char>, c: Seq<char>)
    requires
        q.len() == 0,
    ensures
        spec_search(q, c) == lines_of(c),
        spec_search_ci(q, c) == lines_of(c),
{
    assert forall|l: Seq<char>| #[trigger] match_pred(q)(l) by {
        assert(l.subrange(0, 0) =~= q);
        assert(match_at(l, q, 0));
    }
    assert(lower_of(q) =~= Seq::<char>::empty());
    assert forall|l: Seq<char>| #[trigger] match_pred_ci(q)(l) by {
        assert(lower_of(l).subrange(0, 0) =~= lower_of(q));
        assert(match_at(lower_of(l), lower_of(q), 0));
    }
    lemma_filter_all(lines_of(c), match_pred(q));
    lemma_filter_all(lines_of(c), match_pred_ci(q));
}

/// Case-insensitive search subsumes case-sensitive search: every line
/// that the case-sensitive search returns, the case-insensitive search
/// returns as well.
pub proof fn lemma_case_insensitive_superset(q: Seq<char>, c: Seq<char>, l: Seq<char>)
    requires
        spec_search(q, c).contains(l),
    ensures
        spec_search_ci(q, c).contains(l),
{
    broadcast use vstd::seq_lib::group_filter_ensures;

    let lines = lines_of(c);
    lemma_filter_mem(lines, match_pred(q), l);
    lemma_contains_lower(l, q);
    assert(match_pred_ci(q)(l));
    let j = choose|j: int| 0 <= j < lines.len() && lines[j] == l;
    assert(lines.filter(match_pred_ci(q)).contains(lines[j]));
}

/// Search is deterministic: two results of searching the same query in
/// the same content, in the same case mode, are the same sequence.
pub proof fn lemma_search_deterministic(
    q: Seq<char>,
    c: Seq<char>,
    ignore_case: bool,
    r1: Seq<Seq<char>>,
    r2: Seq<Seq<char>>,
)
    requires
        r1 == if ignore_case {
            spec_search_ci(q, c)
        } else {
            spec_search(q, c)
        },
        r2 == if ignore_case {
            spec_search_ci(q, c)
        } else {
            spec_search(q, c)
        },
    ensures
        r1 == r2,
{
}

} // verus!
