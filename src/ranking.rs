//! The order in which tallies rank: more votes first, then name order.
use vstd::prelude::*;
use crate::model::{Tally, tally_view};

verus! {

/// `a` comes strictly before `b` in lexicographic order of characters.
pub open spec fn precedes(a: Seq<char>, b: Seq<char>) -> bool
    decreases a.len(),
{
    if b.len() == 0 {
        false
    } else if a.len() == 0 {
        true
    } else if a[0] != b[0] {
        (a[0] as int) < (b[0] as int)
    } else {
        precedes(a.drop_first(), b.drop_first())
    }
}

/// `a` ranks strictly above `b`: more votes, or as many and a name that
/// comes first.
pub open spec fn outranks(a: Tally, b: Tally) -> bool {
    a.1 > b.1 || (a.1 == b.1 && precedes(a.0, b.0))
}

/// No tally of `t` ranks above the tally at `i`.
pub open spec fn leads(t: Seq<Tally>, i: int) -> bool {
    &&& 0 <= i < t.len()
    &&& forall|j: int| 0 <= j < t.len() ==> !outranks(#[trigger] t[j], t[i])
}

/// The party that tops the tallies, if there are any.
pub open spec fn plurality_winner(t: Seq<Tally>) -> Option<Seq<char>> {
    if exists|i: int| leads(t, i) {
        Some(t[choose|i: int| leads(t, i)].0)
    } else {
        None
    }
}

/// The index of the lowest-ranked tally: fewest votes, and on equal votes
/// the name that comes last. Among identical tallies, the earliest.
pub open spec fn last_place(t: Seq<Tally>) -> int
    decreases t.len(),
{
    if t.len() <= 1 {
        0
    } else {
        let k = last_place(t.drop_last());
        if outranks(t[k], t.last()) {
            t.len() - 1
        } else {
            k
        }
    }
}

pub proof fn lemma_precedes_total(a: Seq<char>, b: Seq<char>)
    ensures
        a != b ==> precedes(a, b) || precedes(b, a),
        !(precedes(a, b) && precedes(b, a)),
    decreases a.len(),
{
    if a.len() > 0 && b.len() > 0 {
        lemma_precedes_total(a.drop_first(), b.drop_first());
        if a[0] == b[0] && a.drop_first() == b.drop_first() {
            assert(a =~= seq![a[0]] + a.drop_first());
            assert(b =~= seq![b[0]] + b.drop_first());
        }
    } else if a.len() == 0 && b.len() == 0 {
        assert(a =~= b);
    }
}

pub proof fn lemma_precedes_transitive(a: Seq<char>, b: Seq<char>, c: Seq<char>)
    requires
        precedes(a, b),
        precedes(b, c),
    ensures
        precedes(a, c),
    decreases a.len(),
{
    if a.len() > 0 && a[0] == b[0] && b[0] == c[0] {
        lemma_precedes_transitive(a.drop_first(), b.drop_first(), c.drop_first());
    }
}

pub proof fn lemma_outranks_transitive(a: Tally, b: Tally, c: Tally)
    requires
        outranks(a, b),
        outranks(b, c),
    ensures
        outranks(a, c),
{
    if a.1 == b.1 && b.1 == c.1 {
        lemma_precedes_transitive(a.0, b.0, c.0);
    }
}

/// Two tallies that do not outrank each other are the same tally.
pub proof fn lemma_outranks_total(a: Tally, b: Tally)
    ensures
        !outranks(a, b) && !outranks(b, a) ==> a == b,
        !(outranks(a, b) && outranks(b, a)),
{
    lemma_precedes_total(a.0, b.0);
}

/// Every leading tally carries the winner's name.
pub proof fn lemma_leader_wins(t: Seq<Tally>, i: int)
    requires
        leads(t, i),
    ensures
        plurality_winner(t) == Some(t[i].0),
{
    let k = choose|k: int| leads(t, k);
    assert(leads(t, k));
    assert(!outranks(t[k], t[i]));
    assert(!outranks(t[i], t[k]));
    lemma_outranks_total(t[i], t[k]);
}

/// The last place of a non-empty sequence lies inside it.
pub proof fn lemma_last_place_in_bounds(t: Seq<Tally>)
    requires
        t.len() >= 1,
    ensures
        0 <= last_place(t) < t.len(),
    decreases t.len(),
{
    if t.len() > 1 {
        lemma_last_place_in_bounds(t.drop_last());
    }
}

/// Whether `a` comes strictly before `b` in name order.
pub fn name_precedes(a: &String, b: &String) -> (r: bool)
    ensures
        r == precedes(a@, b@),
{
    let sa = a.as_str();
    let sb = b.as_str();
    let la = sa.unicode_len();
    let lb = sb.unicode_len();
    let mut k: usize = 0;
    assert(a@.skip(0) =~= a@);
    assert(b@.skip(0) =~= b@);
    while k < la && k < lb
        invariant
            la == a@.len(),
            lb == b@.len(),
            sa@ == a@,
            sb@ == b@,
            k <= la,
            k <= lb,
            precedes(a@, b@) == precedes(a@.skip(k as int), b@.skip(k as int)),
        decreases la - k,
    {
        let ca = sa.get_char(k);
        let cb = sb.get_char(k);
        if ca != cb {
            return ca < cb;
        }
        assert(a@.skip(k as int).drop_first() =~= a@.skip(k + 1));
        assert(b@.skip(k as int).drop_first() =~= b@.skip(k + 1));
        k = k + 1;
    }
    k == la && k < lb
}

/// Whether tally `a` ranks strictly above tally `b`.
pub fn tally_outranks(a: &(String, u64), b: &(String, u64)) -> (r: bool)
    ensures
        r == outranks((a.0@, a.1), (b.0@, b.1)),
{
    a.1 > b.1 || (a.1 == b.1 && name_precedes(&a.0, &b.0))
}

/// The index of a leading tally, or `None` when there are no tallies.
pub fn first_place(t: &Vec<(String, u64)>) -> (r: Option<usize>)
    ensures
        r.is_none() == (t@.len() == 0),
        r matches Some(i) ==> leads(tally_view(t@), i as int),
{
    if t.len() == 0 {
        return None;
    }
    let ghost v = tally_view(t@);
    let mut best: usize = 0;
    let mut i: usize = 1;
    proof {
        lemma_outranks_total(v[0], v[0]);
    }
    while i < t.len()
        invariant
            v == tally_view(t@),
            1 <= i <= t.len(),
            best < i,
            forall|j: int| 0 <= j < i ==> !outranks(#[trigger] v[j], v[best as int]),
        decreases t.len() - i,
    {
        if tally_outranks(&t[i], &t[best]) {
            proof {
                assert forall|j: int| 0 <= j <= i implies !outranks(#[trigger] v[j], v[i as int]) by {
                    if j < i && outranks(v[j], v[i as int]) {
                        lemma_outranks_transitive(v[j], v[i as int], v[best as int]);
                    }
                    if j == i {
                        lemma_outranks_total(v[j], v[j]);
                    }
                }
            }
            best = i;
        } else {
            proof {
                lemma_outranks_total(v[best as int], v[best as int]);
            }
        }
        i = i + 1;
    }
    Some(best)
}

/// The index of the lowest-ranked tally (see `last_place`).
pub fn last_place_index(t: &Vec<(String, u64)>) -> (r: usize)
    requires
        t@.len() >= 1,
    ensures
        r == last_place(tally_view(t@)),
        r < t@.len(),
{
    let ghost v = tally_view(t@);
    let mut k: usize = 0;
    let mut i: usize = 1;
    assert(v.take(1).len() == 1);
    while i < t.len()
        invariant
            v == tally_view(t@),
            1 <= i <= t.len(),
            k < i,
            k == last_place(v.take(i as int)),
        decreases t.len() - i,
    {
        assert(v.take(i + 1).drop_last() =~= v.take(i as int));
        if tally_outranks(&t[k], &t[i]) {
            k = i;
        }
        i = i + 1;
    }
    assert(v.take(i as int) =~= v);
    k
}

} // verus!
