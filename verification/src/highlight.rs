//! Wrapping the matched span of a line in terminal bold markers.

use vstd::prelude::*;

use crate::text::contains_seq;
use crate::text::lemma_lower_concat;
use crate::text::lower_of;
use crate::text::match_at;

verus! {

/// The escape sequence that turns bold on.
pub open spec fn bold_on() -> Seq<char> {
    seq!['\x1b', '[', '1', 'm']
}

/// The escape sequence that turns bold off.
pub open spec fn bold_off() -> Seq<char> {
    seq!['\x1b', '[', '0', 'm']
}

/// `l` with the span from `i` to `m` wrapped in bold markers.
pub open spec fn highlighted_span(l: Seq<char>, i: int, m: int) -> Seq<char>
    recommends
        0 <= i <= m <= l.len(),
{
    l.subrange(0, i) + bold_on() + l.subrange(i, m) + bold_off() + l.subrange(m, l.len() as int)
}

/// The span of `l` from `i` to `m` lowercases to `t`.
pub open spec fn ci_match_at(l: Seq<char>, t: Seq<char>, i: int, m: int) -> bool {
    &&& 0 <= i <= m <= l.len()
    &&& lower_of(l.subrange(i, m)) == t
}

/// A span of `l` that would be highlighted for query `q`: under case
/// folding, a span whose lowercase form is the lowercase form of `q`;
/// otherwise, a literal occurrence of `q`.
pub open spec fn hl_span_at(l: Seq<char>, q: Seq<char>, ci: bool, i: int, m: int) -> bool {
    if ci {
        ci_match_at(l, lower_of(q), i, m)
    } else {
        match_at(l, q, i) && m == i + q.len()
    }
}

/// The first highlightable span: no span starts earlier, and no shorter
/// span starts at the same place.
pub open spec fn first_hl_span(l: Seq<char>, q: Seq<char>, ci: bool, i: int, m: int) -> bool {
    &&& hl_span_at(l, q, ci, i, m)
    &&& forall|i2: int, m2: int| hl_span_at(l, q, ci, i2, m2) ==> i <= i2
    &&& forall|m2: int| hl_span_at(l, q, ci, i, m2) ==> m <= m2
}

/// What highlighting one matched line returns: the line with its first
/// highlightable span wrapped in bold markers, or the line itself when
/// no aligned span exists.
pub open spec fn highlighted_output(l: Seq<char>, q: Seq<char>, ci: bool, out: Seq<char>) -> bool {
    if exists|i: int, m: int| hl_span_at(l, q, ci, i, m) {
        exists|i: int, m: int| first_hl_span(l, q, ci, i, m) && out == highlighted_span(l, i, m)
    } else {
        out == l
    }
}

/// Finds the least end `m` such that the span of `line@` from `i` to
/// `m` lowercases to `target@`, if any such span exists.
fn ci_span_at_start(line: &Vec<char>, target: &Vec<char>, i: usize) -> (r: Option<usize>)
    requires
        i <= line@.len(),
    ensures
        match r {
            Some(m) => ci_match_at(line@, target@, i as int, m as int) && forall|m2: int|
                m2 < m ==> !ci_match_at(line@, target@, i as int, m2),
            None => forall|m2: int| !ci_match_at(line@, target@, i as int, m2),
        },
{
    let n = line.len();
    let tl = target.len();
    let mut k: usize = i;
    let mut acc: Vec<char> = Vec::new();
    proof {
        assert(line@.subrange(i as int, i as int) =~= Seq::<char>::empty());
    }
    while acc.len() < tl && k < n
        invariant
            i <= k <= n,
            n == line@.len(),
            tl == target@.len(),
            acc@ == lower_of(line@.subrange(i as int, k as int)),
            forall|m2: int| i <= m2 < k ==> #[trigger] lower_of(
                line@.subrange(i as int, m2),
            ).len() < tl,
        decreases n - k,
    {
        let mut piece = crate::text::lower_char(line[k]);
        proof {
            assert(line@.subrange(i as int, k + 1) =~= line@.subrange(i as int, k as int).push(
                line@[k as int],
            ));
            crate::text::lemma_lower_push(line@.subrange(i as int, k as int), line@[k as int]);
        }
        acc.append(&mut piece);
        k += 1;
    }
    proof {
        assert forall|m2: int| i <= m2 < k implies !ci_match_at(line@, target@, i as int, m2) by {
            assert(lower_of(line@.subrange(i as int, m2)).len() < tl);
        }
        assert forall|m2: int| k < m2 <= n implies lower_of(line@.subrange(i as int, m2)) =~= acc@
            + lower_of(line@.subrange(k as int, m2)) by {
            assert(line@.subrange(i as int, m2) =~= line@.subrange(i as int, k as int)
                + line@.subrange(k as int, m2));
            lemma_lower_concat(line@.subrange(i as int, k as int), line@.subrange(k as int, m2));
        }
    }
    if acc.len() == tl && eq_chars(&acc, target) {
        proof {
            assert(ci_match_at(line@, target@, i as int, k as int));
        }
        Some(k)
    } else {
        proof {
            assert forall|m2: int| !ci_match_at(line@, target@, i as int, m2) by {
                if k < m2 <= n {
                    assert(lower_of(line@.subrange(i as int, m2)) =~= acc@ + lower_of(
                        line@.subrange(k as int, m2),
                    ));
                    if lower_of(line@.subrange(i as int, m2)) == target@ {
                        assert(lower_of(line@.subrange(k as int, m2)).len() == 0);
                        assert(lower_of(line@.subrange(i as int, m2)) =~= acc@);
                    }
                }
            }
        }
        None
    }
}

/// Compares two character vectors for equality.
fn eq_chars(a: &Vec<char>, b: &Vec<char>) -> (r: bool)
    ensures
        r == (a@ == b@),
{
    if a.len() != b.len() {
        return false;
    }
    let n = a.len();
    let mut i: usize = 0;
    while i < n
        invariant
            i <= n,
            n == a@.len() == b@.len(),
            forall|j: int| 0 <= j < i ==> a@[j] == b@[j],
        decreases n - i,
    {
        if a[i] != b[i] {
            return false;
        }
        i += 1;
    }
    proof {
        assert(a@ =~= b@);
    }
    true
}

/// Finds the first span of `line@` whose lowercase form is `target@`:
/// the least start, and for that start the least end.
pub fn find_first_ci(line: &Vec<char>, target: &Vec<char>) -> (r: Option<(usize, usize)>)
    ensures
        match r {
            Some(p) => ci_match_at(line@, target@, p.0 as int, p.1 as int) && (forall|
                i2: int,
                m2: int,
            |
                ci_match_at(line@, target@, i2, m2) ==> p.0 <= i2) && (forall|m2: int|
                ci_match_at(line@, target@, p.0 as int, m2) ==> p.1 <= m2),
            None => forall|i2: int, m2: int| !ci_match_at(line@, target@, i2, m2),
        },
{
    let n = line.len();
    if target.len() == 0 {
        proof {
            assert(line@.subrange(0, 0) =~= Seq::<char>::empty());
            assert(target@ =~= Seq::<char>::empty());
            assert(ci_match_at(line@, target@, 0, 0));
        }
        return Some((0, 0));
    }
    let mut i: usize = 0;
    while i < n
        invariant
            i <= n,
            n == line@.len(),
            target@.len() > 0,
            forall|i2: int, m2: int| 0 <= i2 < i ==> !ci_match_at(line@, target@, i2, m2),
        decreases n - i,
    {
        match ci_span_at_start(line, target, i) {
            Some(m) => {
                return Some((i, m));
            },
            None => {},
        }
        i += 1;
    }
    proof {
        assert forall|i2: int, m2: int| !ci_match_at(line@, target@, i2, m2) by {
            if i2 == n && m2 == n {
                assert(line@.subrange(n as int, n as int) =~= Seq::<char>::empty());
            }
        }
    }
    None
}

/// Builds `line` with the span from `i` to `m` wrapped in bold markers.
pub fn wrap_span(line: &str, i: usize, m: usize) -> (r: String)
    requires
        i <= m <= line@.len(),
    ensures
        r@ == highlighted_span(line@, i as int, m as int),
{
    let n = line.unicode_len();
    let mut r = String::from_str(line.substring_char(0, i));
    r.append("\x1b[1m");
    r.append(line.substring_char(i, m));
    r.append("\x1b[0m");
    r.append(line.substring_char(m, n));
    proof {
        reveal_strlit("\x1b[1m");
        reveal_strlit("\x1b[0m");
        assert(("\x1b[1m")@ =~= bold_on());
        assert(("\x1b[0m")@ =~= bold_off());
        assert(r@ =~= highlighted_span(line@, i as int, m as int));
    }
    r
}

} // verus!
