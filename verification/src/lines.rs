//! Splitting a text into its lines.
//!
//! A line break is `'\n'`, optionally preceded by one `'\r'` that is then
//! not part of the line. A trailing line break ends the last line without
//! opening an empty one; a text without a trailing line break still yields
//! its last line. The empty text has no lines.

use vstd::prelude::*;

verus! {

/// One carriage return at the end of a line fragment is not part of the line.
pub open spec fn strip_cr(l: Seq<char>) -> Seq<char> {
    if l.len() > 0 && l[l.len() - 1] == '\r' {
        l.drop_last()
    } else {
        l
    }
}

/// The position of the first `'\n'` in `s`, or `s.len()` if there is none.
pub open spec fn first_newline(s: Seq<char>) -> int
    decreases s.len(),
{
    if s.len() == 0 {
        0
    } else if s[0] == '\n' {
        0
    } else {
        1 + first_newline(s.skip(1))
    }
}

/// A position with no `'\n'` before it, and a `'\n'` at it or the text's end,
/// is where `first_newline` points.
pub proof fn lemma_first_newline_is(s: Seq<char>, m: int)
    requires
        0 <= m <= s.len(),
        forall|k: int| 0 <= k < m ==> s[k] != '\n',
        m < s.len() ==> s[m] == '\n',
    ensures
        first_newline(s) == m,
    decreases m,
{
    if m > 0 {
        assert(s[0] != '\n');
        assert forall|k: int| 0 <= k < m - 1 implies s.skip(1)[k] != '\n' by {
            assert(s.skip(1)[k] == s[k + 1]);
        }
        if m - 1 < s.skip(1).len() {
            assert(s.skip(1)[m - 1] == s[m]);
        }
        lemma_first_newline_is(s.skip(1), m - 1);
    }
}

/// The lines of a text, in order, without their line breaks.
pub open spec fn spec_lines(s: Seq<char>) -> Seq<Seq<char>>
    decreases s.len(),
{
    if s.len() == 0 {
        Seq::empty()
    } else {
        let i = first_newline(s);
        if 0 <= i && i < s.len() {
            seq![strip_cr(s.subrange(0, i))] + spec_lines(s.skip(i + 1))
        } else {
            seq![s]
        }
    }
}

/// The lines of a text, as borrowed slices of it, in order.
pub fn split_lines<'a>(contents: &'a str) -> (lines: Vec<&'a str>)
    ensures
        lines.deep_view() == spec_lines(contents@),
{
    let n = contents.unicode_len();
    let mut lines: Vec<&'a str> = Vec::new();
    let mut start: usize = 0;
    let mut j: usize = 0;
    proof {
        assert(lines.deep_view() =~= Seq::<Seq<char>>::empty());
        assert(contents@.skip(0) =~= contents@);
    }
    while j < n
        invariant
            start <= j <= n,
            n == contents@.len(),
            forall|k: int| start <= k < j ==> contents@[k] != '\n',
            lines.deep_view() + spec_lines(contents@.skip(start as int)) == spec_lines(
                contents@,
            ),
        decreases n - j,
    {
        let c = contents.get_char(j);
        if c == '\n' {
            let end = if j > start && contents.get_char(j - 1) == '\r' {
                j - 1
            } else {
                j
            };
            let line = contents.substring_char(start, end);
            let ghost t = contents@.skip(start as int);
            let ghost rest = contents@.skip(j + 1);
            proof {
                assert forall|k: int| 0 <= k < j - start implies t[k] != '\n' by {
                    assert(t[k] == contents@[start + k]);
                }
                assert(t[j - start] == contents@[j as int]);
                lemma_first_newline_is(t, j - start);
                let sub = t.subrange(0, j - start);
                assert(sub =~= contents@.subrange(start as int, j as int));
                if j > start {
                    assert(sub[sub.len() - 1] == contents@[j - 1]);
                }
                assert(strip_cr(sub) =~= line@);
                assert(t.skip(j - start + 1) =~= rest);
                assert(spec_lines(t) == seq![line@] + spec_lines(rest));
            }
            let ghost old_deep = lines.deep_view();
            lines.push(line);
            proof {
                assert(lines.deep_view() =~= old_deep.push(line@));
                assert(old_deep.push(line@) + spec_lines(rest) =~= old_deep + (seq![line@]
                    + spec_lines(rest)));
            }
            start = j + 1;
        }
        j = j + 1;
    }
    if start < n {
        let line = contents.substring_char(start, n);
        let ghost t = contents@.skip(start as int);
        proof {
            assert forall|k: int| 0 <= k < t.len() implies t[k] != '\n' by {
                assert(t[k] == contents@[start + k]);
            }
            lemma_first_newline_is(t, t.len() as int);
            assert(t =~= line@);
            assert(spec_lines(t) == seq![line@]);
        }
        let ghost old_deep = lines.deep_view();
        lines.push(line);
        proof {
            assert(lines.deep_view() =~= old_deep.push(line@));
            assert(old_deep.push(line@) =~= old_deep + seq![line@]);
        }
    } else {
        proof {
            assert(contents@.skip(start as int).len() == 0);
            assert(spec_lines(contents@.skip(start as int)) == Seq::<Seq<char>>::empty());
            assert(lines.deep_view() =~= lines.deep_view() + Seq::<Seq<char>>::empty());
        }
    }
    lines
}

} // verus!
