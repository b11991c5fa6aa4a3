//! Splitting text into lines.
//!
//! A line is the text between consecutive `'\n'` terminators; a `'\r'`
//! immediately before a `'\n'` belongs to the terminator, not to the
//! line. The final terminator is optional: text after the last `'\n'`
//! still forms a line, and a trailing `'\r'` without a following `'\n'`
//! stays part of that line.

use vstd::prelude::*;

verus! {

/// Removes a single trailing carriage return, if present.
pub open spec fn strip_cr(l: Seq<char>) -> Seq<char> {
    if l.len() > 0 && l[l.len() - 1] == '\r' {
        l.drop_last()
    } else {
        l
    }
}

/// The index of the first `'\n'` in `s`; meaningful only when one occurs.
pub open spec fn first_nl(s: Seq<char>) -> int
    decreases s.len(),
{
    if s.len() == 0 {
        0
    } else if s[0] == '\n' {
        0
    } else {
        1 + first_nl(s.drop_first())
    }
}

/// The lines of `s`, in order, with terminators stripped.
pub open spec fn lines_of(s: Seq<char>) -> Seq<Seq<char>>
    decreases s.len(),
{
    if s.len() == 0 {
        Seq::empty()
    } else if !s.contains('\n') {
        seq![s]
    } else {
        let i = first_nl(s);
        if 0 <= i < s.len() {
            seq![strip_cr(s.subrange(0, i))] + lines_of(s.subrange(i + 1, s.len() as int))
        } else {
            Seq::empty()
        }
    }
}

/// `first_nl` names the first newline: a `'\n'` with none before it.
proof fn lemma_first_nl_is(s: Seq<char>, i: int)
    requires
        0 <= i < s.len(),
        s[i] == '\n',
        forall|j: int| 0 <= j < i ==> s[j] != '\n',
    ensures
        first_nl(s) == i,
    decreases i,
{
    if i == 0 {
    } else {
        assert(s[0] != '\n');
        let t = s.drop_first();
        assert(t[i - 1] == '\n');
        assert(forall|j: int| 0 <= j < i - 1 ==> t[j] == s[j + 1] && t[j] != '\n');
        lemma_first_nl_is(t, i - 1);
    }
}

/// Splitting off the first line: when the first newline of `s` stands at
/// `i`, the lines of `s` are the stripped prefix before `i` followed by
/// the lines of the text after `i`.
pub proof fn lemma_lines_of_step(s: Seq<char>, i: int)
    requires
        0 <= i < s.len(),
        s[i] == '\n',
        forall|j: int| 0 <= j < i ==> s[j] != '\n',
    ensures
        lines_of(s) == seq![strip_cr(s.subrange(0, i))] + lines_of(
            s.subrange(i + 1, s.len() as int),
        ),
{
    assert(s.contains('\n')) by {
        assert(s[i] == '\n');
    }
    lemma_first_nl_is(s, i);
}

/// A text without newlines is a single line (or none, when empty).
pub proof fn lemma_lines_of_flat(s: Seq<char>)
    requires
        forall|j: int| 0 <= j < s.len() ==> s[j] != '\n',
    ensures
        lines_of(s) == if s.len() == 0 {
            Seq::<Seq<char>>::empty()
        } else {
            seq![s]
        },
{
    if s.len() > 0 {
        assert(!s.contains('\n'));
    }
}

/// The views of a sequence of string slices.
pub open spec fn views_of(ls: Seq<&str>) -> Seq<Seq<char>> {
    ls.map_values(|l: &str| l@)
}

/// Splits `contents` into its lines, as borrowed slices, in order.
pub fn split_lines<'a>(contents: &'a str) -> (r: Vec<&'a str>)
    ensures
        views_of(r@) == lines_of(contents@),
{
    let n = contents.unicode_len();
    let mut r: Vec<&'a str> = Vec::new();
    let mut start: usize = 0;
    let mut i: usize = 0;
    proof {
        assert(contents@.subrange(0, n as int) =~= contents@);
        assert(views_of(r@) + lines_of(contents@) =~= lines_of(contents@));
    }
    while i < n
        invariant
            start <= i <= n,
            n == contents@.len(),
            lines_of(contents@) =~= views_of(r@) + lines_of(
                contents@.subrange(start as int, n as int),
            ),
            forall|j: int| start <= j < i ==> contents@[j] != '\n',
        decreases n - i,
    {
        let c = contents.get_char(i);
        if c == '\n' {
            let end = if i > start && contents.get_char(i - 1) == '\r' {
                i - 1
            } else {
                i
            };
            let line = contents.substring_char(start, end);
            proof {
                let rest = contents@.subrange(start as int, n as int);
                assert(rest[i - start] == '\n');
                assert(forall|j: int| 0 <= j < i - start ==> rest[j] == contents@[start + j]
                    && rest[j] != '\n');
                lemma_lines_of_step(rest, i - start);
                assert(rest.subrange(0, i - start) =~= contents@.subrange(start as int, i as int));
                if i > start && contents@[i - 1] == '\r' {
                    assert(strip_cr(contents@.subrange(start as int, i as int)) =~= contents@
                        .subrange(start as int, i - 1));
                } else {
                    assert(strip_cr(contents@.subrange(start as int, i as int)) =~= contents@
                        .subrange(start as int, i as int));
                }
                assert(rest.subrange(i - start + 1, rest.len() as int) =~= contents@.subrange(
                    i + 1,
                    n as int,
                ));
            }
            r.push(line);
            proof {
                assert(views_of(r@) =~= views_of(r@.drop_last()).push(line@));
            }
            start = i + 1;
        }
        i += 1;
    }
    if start < n {
        let line = contents.substring_char(start, n);
        proof {
            let rest = contents@.subrange(start as int, n as int);
            assert(forall|j: int| 0 <= j < rest.len() ==> rest[j] == contents@[start + j]
                && rest[j] != '\n');
            lemma_lines_of_flat(rest);
        }
        r.push(line);
        proof {
            assert(views_of(r@) =~= views_of(r@.drop_last()).push(line@));
            assert(views_of(r@) =~= lines_of(contents@));
        }
    } else {
        proof {
            assert(contents@.subrange(start as int, n as int).len() == 0);
            assert(views_of(r@) + lines_of(contents@.subrange(start as int, n as int)) =~= views_of(
                r@,
            ));
        }
    }
    r
}

} // verus!
