//! Splitting list-file content into records, one per line.  A line ends
//! at a line feed, an immediately preceding carriage return belongs to
//! the terminator, and a trailing terminator does not open a final
//! empty record.

use vstd::prelude::*;
use crate::order::views;

verus! {

/// A line with a trailing carriage return removed.
pub open spec fn strip_cr(l: Seq<char>) -> Seq<char> {
    if l.len() > 0 && l.last() == '\r' {
        l.drop_last()
    } else {
        l
    }
}

/// Index of the first line feed of `s`, or `-1` if there is none.
pub open spec fn first_nl(s: Seq<char>) -> int
    decreases s.len(),
{
    if s.len() == 0 {
        -1
    } else if s[0] == '\n' {
        0
    } else if first_nl(s.drop_first()) < 0 {
        -1
    } else {
        first_nl(s.drop_first()) + 1
    }
}

/// What `first_nl` returns: a position inside `s` holding the first
/// line feed, or `-1` when `s` holds none.
pub proof fn lemma_first_nl(s: Seq<char>)
    ensures
        -1 <= first_nl(s) < s.len(),
        first_nl(s) >= 0 ==> s[first_nl(s)] == '\n',
        forall|t: int| 0 <= t < first_nl(s) ==> s[t] != '\n',
        first_nl(s) < 0 ==> forall|t: int| 0 <= t < s.len() ==> s[t] != '\n',
    decreases s.len(),
{
    if s.len() > 0 && s[0] != '\n' {
        lemma_first_nl(s.drop_first());
        assert forall|t: int| 0 <= t < first_nl(s) implies s[t] != '\n' by {
            if t > 0 {
                assert(s.drop_first()[t - 1] == s[t]);
            }
        }
        if first_nl(s) < 0 {
            assert forall|t: int| 0 <= t < s.len() implies s[t] != '\n' by {
                if t > 0 {
                    assert(s.drop_first()[t - 1] == s[t]);
                }
            }
        }
    }
}

/// `first_nl` is pinned by exhibiting the first line feed.
pub proof fn lemma_first_nl_is(s: Seq<char>, i: int)
    requires
        0 <= i < s.len(),
        s[i] == '\n',
        forall|t: int| 0 <= t < i ==> s[t] != '\n',
    ensures
        first_nl(s) == i,
    decreases s.len(),
{
    if i > 0 {
        assert forall|t: int| 0 <= t < i - 1 implies s.drop_first()[t] != '\n' by {
            assert(s.drop_first()[t] == s[t + 1]);
        }
        assert(s.drop_first()[i - 1] == s[i]);
        lemma_first_nl_is(s.drop_first(), i - 1);
    }
}

/// `first_nl` reports none when no line feed occurs.
pub proof fn lemma_first_nl_none(s: Seq<char>)
    requires
        forall|t: int| 0 <= t < s.len() ==> s[t] != '\n',
    ensures
        first_nl(s) < 0,
    decreases s.len(),
{
    if s.len() > 0 {
        assert forall|t: int| 0 <= t < s.len() - 1 implies s.drop_first()[t] != '\n' by {
            assert(s.drop_first()[t] == s[t + 1]);
        }
        lemma_first_nl_none(s.drop_first());
    }
}

#[via_fn]
proof fn split_lines_decreases(s: Seq<char>) {
    lemma_first_nl(s);
}

/// The records of list-file content `s`, in order.
pub open spec fn split_lines(s: Seq<char>) -> Seq<Seq<char>>
    decreases s.len(),
    via split_lines_decreases
{
    if s.len() == 0 {
        seq![]
    } else if first_nl(s) < 0 {
        seq![s]
    } else {
        seq![strip_cr(s.subrange(0, first_nl(s)))] + split_lines(
            s.subrange(first_nl(s) + 1, s.len() as int),
        )
    }
}

/// Split list-file content into its records.
pub fn split_into_lines(content: &str) -> (r: Vec<String>)
    ensures
        views(r@) == split_lines(content@),
{
    let ghost s = content@;
    let n = content.unicode_len();
    let mut out: Vec<String> = Vec::new();
    let mut start: usize = 0;
    let mut i: usize = 0;
    proof {
        assert(s.subrange(0, n as int) =~= s);
        assert(views(out@) + split_lines(s) =~= split_lines(s));
    }
    while i < n
        invariant
            start <= i <= n,
            n == s.len(),
            s == content@,
            forall|t: int| start <= t < i ==> s[t] != '\n',
            split_lines(s) == views(out@) + split_lines(s.subrange(start as int, n as int)),
        decreases n - i,
    {
        let c = content.get_char(i);
        if c == '\n' {
            let line_end = if i > start && content.get_char(i - 1) == '\r' {
                i - 1
            } else {
                i
            };
            let line = content.substring_char(start, line_end);
            let ghost out_before = out@;
            out.push(String::from_str(line));
            proof {
                let rest = s.subrange(start as int, n as int);
                assert forall|t: int| 0 <= t < i - start implies rest[t] != '\n' by {
                    assert(rest[t] == s[start + t]);
                }
                assert(rest[i - start] == s[i as int]);
                lemma_first_nl_is(rest, i - start);
                assert(rest.subrange(0, i - start) =~= s.subrange(start as int, i as int));
                assert(rest.subrange(i - start + 1, rest.len() as int) =~= s.subrange(
                    i + 1,
                    n as int,
                ));
                assert(strip_cr(s.subrange(start as int, i as int)) =~= s.subrange(
                    start as int,
                    line_end as int,
                ));
                assert(views(out@) =~= views(out_before).push(line@));
                assert(views(out@) + split_lines(s.subrange(i + 1, n as int)) =~= views(
                    out_before,
                ) + split_lines(rest));
            }
            start = i + 1;
        }
        i = i + 1;
    }
    if start < n {
        let line = content.substring_char(start, n);
        let ghost out_before = out@;
        out.push(String::from_str(line));
        proof {
            let rest = s.subrange(start as int, n as int);
            assert forall|t: int| 0 <= t < rest.len() implies rest[t] != '\n' by {
                assert(rest[t] == s[start + t]);
            }
            lemma_first_nl_none(rest);
            assert(split_lines(rest) == seq![rest]);
            assert(views(out@) =~= views(out_before).push(line@));
            assert(views(out@) =~= views(out_before) + seq![rest]);
        }
    } else {
        proof {
            assert(s.subrange(start as int, n as int).len() == 0);
            assert(views(out@) + split_lines(s.subrange(start as int, n as int)) =~= views(out@));
        }
    }
    out
}

} // verus!
