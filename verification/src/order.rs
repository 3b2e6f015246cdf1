//! Deterministic ordering of directory entry names: lexicographic
//! (codepoint) order, and a verified sort over it.

use vstd::prelude::*;
use vstd::relations::{sorted_by, total_ordering};
use vstd::seq_lib::lemma_sorted_unique;

verus! {

/// Lexicographic order on character sequences, by codepoint, with a
/// prefix ordered before every sequence that extends it.
pub open spec fn lex_le(a: Seq<char>, b: Seq<char>) -> bool
    decreases a.len(),
{
    if a.len() == 0 {
        true
    } else if b.len() == 0 {
        false
    } else if a[0] != b[0] {
        (a[0] as int) < (b[0] as int)
    } else {
        lex_le(a.drop_first(), b.drop_first())
    }
}

/// `lex_le` as a binary relation value.
pub open spec fn lex_leq() -> spec_fn(Seq<char>, Seq<char>) -> bool {
    |a: Seq<char>, b: Seq<char>| lex_le(a, b)
}

/// Any two sequences are comparable under `lex_le`.
pub proof fn lemma_lex_le_total(a: Seq<char>, b: Seq<char>)
    ensures
        lex_le(a, b) || lex_le(b, a),
    decreases a.len(),
{
    if a.len() > 0 && b.len() > 0 && a[0] == b[0] {
        lemma_lex_le_total(a.drop_first(), b.drop_first());
    }
}

/// `lex_le` in both directions forces equality.
pub proof fn lemma_lex_le_antisymmetric(a: Seq<char>, b: Seq<char>)
    requires
        lex_le(a, b),
        lex_le(b, a),
    ensures
        a == b,
    decreases a.len(),
{
    if a.len() == 0 {
        assert(b.len() == 0);
        assert(a =~= b);
    } else {
        assert(b.len() > 0);
        assert(a[0] == b[0]);
        lemma_lex_le_antisymmetric(a.drop_first(), b.drop_first());
        assert(a.len() == b.len());
        assert forall|t: int| 0 <= t < a.len() implies a[t] == b[t] by {
            if t > 0 {
                assert(a.drop_first()[t - 1] == a[t]);
                assert(b.drop_first()[t - 1] == b[t]);
            }
        }
        assert(a =~= b);
    }
}

/// `lex_le` is transitive.
pub proof fn lemma_lex_le_transitive(a: Seq<char>, b: Seq<char>, c: Seq<char>)
    requires
        lex_le(a, b),
        lex_le(b, c),
    ensures
        lex_le(a, c),
    decreases a.len(),
{
    if a.len() > 0 && b.len() > 0 && c.len() > 0 && a[0] == b[0] && b[0] == c[0] {
        lemma_lex_le_transitive(a.drop_first(), b.drop_first(), c.drop_first());
    }
}

/// `lex_le` is a total order on character sequences.
pub proof fn lemma_lex_total_ordering()
    ensures
        total_ordering(lex_leq()),
{
    let r = lex_leq();
    assert forall|a: Seq<char>| #[trigger] r(a, a) by {
        lemma_lex_le_total(a, a);
    }
    assert forall|a: Seq<char>, b: Seq<char>| #[trigger] r(a, b) || #[trigger] r(b, a) by {
        lemma_lex_le_total(a, b);
    }
    assert forall|a: Seq<char>, b: Seq<char>| #[trigger] r(a, b) && #[trigger] r(
        b,
        a,
    ) implies a == b by {
        lemma_lex_le_antisymmetric(a, b);
    }
    assert forall|a: Seq<char>, b: Seq<char>, c: Seq<char>| #[trigger] r(a, b) && #[trigger] r(
        b,
        c,
    ) implies r(a, c) by {
        lemma_lex_le_transitive(a, b, c);
    }
}

/// Comparing suffixes after a common prefix decides the order.
proof fn lemma_lex_le_skip(a: Seq<char>, b: Seq<char>, i: int)
    requires
        0 <= i <= a.len(),
        i <= b.len(),
        forall|t: int| 0 <= t < i ==> a[t] == b[t],
    ensures
        lex_le(a, b) == lex_le(a.skip(i), b.skip(i)),
    decreases i,
{
    if i > 0 {
        assert(a[0] == b[0]);
        lemma_lex_le_skip(a.drop_first(), b.drop_first(), i - 1);
        assert(a.drop_first().skip(i - 1) =~= a.skip(i));
        assert(b.drop_first().skip(i - 1) =~= b.skip(i));
        assert(a.skip(0) =~= a);
        assert(b.skip(0) =~= b);
    } else {
        assert(a.skip(0) =~= a);
        assert(b.skip(0) =~= b);
    }
}

/// Decide `lex_le` on two strings.
pub fn str_le(a: &str, b: &str) -> (r: bool)
    ensures
        r == lex_le(a@, b@),
{
    let an = a.unicode_len();
    let bn = b.unicode_len();
    let mut i: usize = 0;
    while i < an && i < bn
        invariant
            i <= an,
            i <= bn,
            an == a@.len(),
            bn == b@.len(),
            forall|t: int| 0 <= t < i ==> a@[t] == b@[t],
        decreases an - i,
    {
        let ca = a.get_char(i);
        let cb = b.get_char(i);
        if ca != cb {
            proof {
                lemma_lex_le_skip(a@, b@, i as int);
                assert(a@.skip(i as int)[0] == a@[i as int]);
                assert(b@.skip(i as int)[0] == b@[i as int]);
            }
            return (ca as u32) < (cb as u32);
        }
        i = i + 1;
    }
    proof {
        lemma_lex_le_skip(a@, b@, i as int);
        if i == an {
            assert(a@.skip(i as int).len() == 0);
        } else {
            assert(b@.skip(i as int).len() == 0);
            assert(a@.skip(i as int).len() > 0);
        }
    }
    an <= bn
}

/// The views of a sequence of strings.
pub open spec fn views(s: Seq<String>) -> Seq<Seq<char>> {
    s.map_values(|x: String| x@)
}

/// Taking an element out and putting it back elsewhere keeps the multiset.
proof fn lemma_move_one(s: Seq<Seq<char>>, i: int, j: int)
    requires
        0 <= i < s.len(),
        0 <= j <= s.len() - 1,
    ensures
        s.remove(i).insert(j, s[i]).to_multiset() == s.to_multiset(),
{
    broadcast use vstd::seq_lib::group_to_multiset_ensures;
    broadcast use vstd::seq_lib::to_multiset_insert;
    broadcast use vstd::multiset::group_multiset_axioms;

    assert(s.contains(s[i]));
    assert(s.remove(i).to_multiset() == s.to_multiset().remove(s[i]));
    assert(s.remove(i).insert(j, s[i]).to_multiset() == s.remove(i).to_multiset().insert(s[i]));
    assert(s.to_multiset().count(s[i]) > 0);
    assert(s.to_multiset().remove(s[i]).insert(s[i]) =~= s.to_multiset());
}

proof fn lemma_views_remove(s: Seq<String>, i: int)
    requires
        0 <= i < s.len(),
    ensures
        views(s.remove(i)) =~= views(s).remove(i),
{
}

proof fn lemma_views_insert(s: Seq<String>, i: int, x: String)
    requires
        0 <= i <= s.len(),
    ensures
        views(s.insert(i, x)) =~= views(s).insert(i, x@),
{
}

/// The position in the sorted prefix `v[0..end]` before which `x`
/// must be inserted.
fn insertion_point(v: &Vec<String>, x: &str, end: usize) -> (p: usize)
    requires
        end <= v@.len(),
    ensures
        p <= end,
        forall|t: int| 0 <= t < p ==> lex_le(#[trigger] views(v@)[t], x@),
        p < end ==> !lex_le(views(v@)[p as int], x@),
{
    let mut j: usize = 0;
    while j < end
        invariant
            j <= end,
            end <= v@.len(),
            forall|t: int| 0 <= t < j ==> lex_le(#[trigger] views(v@)[t], x@),
        decreases end - j,
    {
        if !str_le(v[j].as_str(), x) {
            return j;
        }
        j = j + 1;
    }
    j
}

/// Sort entry names into lexicographic order.  The result is the one
/// sorted rearrangement of the input, so a second listing of an
/// unchanged directory sorts to the same sequence.
pub fn sort_names(names: Vec<String>) -> (r: Vec<String>)
    ensures
        r@.len() == names@.len(),
        sorted_by(views(r@), lex_leq()),
        views(r@).to_multiset() == views(names@).to_multiset(),
{
    broadcast use vstd::seq_lib::group_to_multiset_ensures;
    broadcast use vstd::seq_lib::to_multiset_insert;
    broadcast use vstd::multiset::group_multiset_axioms;

    let mut v = names;
    if v.len() == 0 {
        return v;
    }
    let mut i: usize = 1;
    while i < v.len()
        invariant
            1 <= i <= v@.len(),
            v@.len() == names@.len(),
            views(v@).to_multiset() == views(names@).to_multiset(),
            sorted_by(views(v@).subrange(0, i as int), lex_leq()),
        decreases v@.len() - i,
    {
        let ghost before = v@;
        let x = v.remove(i);
        proof {
            lemma_views_remove(before, i as int);
            assert forall|t1: int, t2: int| 0 <= t1 < t2 < i implies lex_leq()(
                views(v@)[t1],
                views(v@)[t2],
            ) by {
                assert(views(before).subrange(0, i as int)[t1] == views(v@)[t1]);
                assert(views(before).subrange(0, i as int)[t2] == views(v@)[t2]);
            }
        }
        let j = insertion_point(&v, x.as_str(), i);
        let ghost removed = v@;
        v.insert(j, x);
        proof {
            lemma_views_insert(removed, j as int, x);
            // the multiset of names is unchanged by moving one element
            lemma_move_one(views(before), i as int, j as int);
            assert(views(before)[i as int] == x@);
            assert(views(v@) == views(before).remove(i as int).insert(
                j as int,
                views(before)[i as int],
            ));
            // the sorted prefix grew by one
            let nv = views(v@);
            let ghost old_pref = views(before).subrange(0, i as int);
            assert forall|t1: int, t2: int| 0 <= t1 < t2 < i + 1 implies lex_leq()(
                nv[t1],
                nv[t2],
            ) by {
                assert(forall|t: int|
                    0 <= t < i ==> views(removed)[t] == old_pref[t]);
                if t2 < j {
                    assert(nv[t1] == old_pref[t1] && nv[t2] == old_pref[t2]);
                } else if t2 == j {
                    assert(nv[t1] == old_pref[t1]);
                    assert(nv[t2] == x@);
                    assert(lex_le(old_pref[t1], x@));
                } else {
                    // t2 > j, so nv[t2] is the old element at t2 - 1
                    assert(nv[t2] == old_pref[t2 - 1]);
                    assert(!lex_le(old_pref[j as int], x@));
                    lemma_lex_le_total(old_pref[j as int], x@);
                    assert(lex_le(x@, old_pref[j as int]));
                    if t1 < j {
                        assert(nv[t1] == old_pref[t1]);
                        if t2 - 1 == j {
                            assert(lex_le(old_pref[t1], x@));
                            lemma_lex_le_transitive(old_pref[t1], x@, old_pref[j as int]);
                        } else {
                            assert(lex_leq()(old_pref[t1], old_pref[t2 - 1]));
                        }
                    } else if t1 == j {
                        assert(nv[t1] == x@);
                        if t2 - 1 == j {
                            assert(lex_le(x@, old_pref[j as int]));
                        } else {
                            assert(lex_leq()(old_pref[j as int], old_pref[t2 - 1]));
                            lemma_lex_le_transitive(x@, old_pref[j as int], old_pref[t2 - 1]);
                        }
                    } else {
                        assert(nv[t1] == old_pref[t1 - 1]);
                        if t1 - 1 == t2 - 1 {
                        } else {
                            assert(lex_leq()(old_pref[t1 - 1], old_pref[t2 - 1]));
                        }
                    }
                }
            }
            assert(sorted_by(nv.subrange(0, i + 1), lex_leq())) by {
                assert(forall|t: int| 0 <= t < i + 1 ==> nv.subrange(0, i + 1)[t] == nv[t]);
            }
        }
        i = i + 1;
    }
    proof {
        assert(views(v@).subrange(0, v@.len() as int) =~= views(v@));
    }
    v
}

/// Listing an unchanged directory twice yields the same order: two
/// sorted sequences with the same names are identical.
pub proof fn lemma_order_deterministic(a: Seq<Seq<char>>, b: Seq<Seq<char>>)
    requires
        sorted_by(a, lex_leq()),
        sorted_by(b, lex_leq()),
        a.to_multiset() == b.to_multiset(),
    ensures
        a == b,
{
    lemma_lex_total_ordering();
    lemma_sorted_unique(a, b, lex_leq());
    assert(a =~= b);
}

} // verus!
