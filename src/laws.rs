//! Properties that hold of every election the library resolves.
use vstd::prelude::*;
use vstd::arithmetic::div_mod::lemma_basic_div;
use crate::model::{ConstituencyResult, Tally, tallies_of};
use crate::ranking::{
    leads, lemma_leader_wins, lemma_outranks_total, lemma_outranks_transitive, outranks,
    plurality_winner,
};
use crate::runoff::{runoff, tally_after};
use crate::simulation::{av_winners, fptp_winners, is_seat_table, seats_won};
use crate::transfer::{FlowTables, share_in, share_of, table_of};

verus! {

broadcast use vstd::seq_lib::group_to_multiset_ensures;

/// The total number of seats in a seat table.
pub open spec fn seat_total(r: Seq<(Seq<char>, usize)>) -> nat
    decreases r.len(),
{
    if r.len() == 0 {
        0
    } else {
        seat_total(r.drop_last()) + r.last().1 as nat
    }
}

/// The seats that a seat table gives `p`; none if it does not list `p`.
pub open spec fn seats_of(r: Seq<(Seq<char>, usize)>, p: Seq<char>) -> nat {
    if exists|i: int| 0 <= i < r.len() && r[i].0 == p {
        r[choose|i: int| 0 <= i < r.len() && r[i].0 == p].1 as nat
    } else {
        0
    }
}

/// A constituency won by a party that `keys` lists.
pub open spec fn won_by_listed(x: Option<Seq<char>>, keys: Seq<Seq<char>>) -> bool {
    match x {
        Some(p) => keys.contains(p),
        None => false,
    }
}

/// The number of winners in `w` whose party `keys` lists.
pub open spec fn wins_among(w: Seq<Option<Seq<char>>>, keys: Seq<Seq<char>>) -> nat
    decreases w.len(),
{
    if w.len() == 0 {
        0
    } else {
        wins_among(w.drop_last(), keys) + match w.last() {
            Some(p) => if keys.contains(p) {
                1nat
            } else {
                0nat
            },
            None => 0nat,
        }
    }
}

/// Every non-empty set of tallies has a leader.
pub proof fn lemma_leader_exists(t: Seq<Tally>)
    requires
        t.len() >= 1,
    ensures
        exists|i: int| leads(t, i),
    decreases t.len(),
{
    if t.len() == 1 {
        lemma_outranks_total(t[0], t[0]);
        assert(leads(t, 0));
    } else {
        let s = t.drop_last();
        lemma_leader_exists(s);
        let k = choose|k: int| leads(s, k);
        let n = t.len() - 1;
        if outranks(t[n], t[k]) {
            assert forall|j: int| 0 <= j < t.len() implies !outranks(#[trigger] t[j], t[n]) by {
                if j < n && outranks(t[j], t[n]) {
                    lemma_outranks_transitive(t[j], t[n], t[k]);
                    assert(s[j] == t[j]);
                }
                if j == n {
                    lemma_outranks_total(t[n], t[n]);
                }
            }
            assert(leads(t, n));
        } else {
            assert forall|j: int| 0 <= j < t.len() implies !outranks(#[trigger] t[j], t[k]) by {
                if j < n {
                    assert(s[j] == t[j]);
                }
            }
            assert(leads(t, k));
        }
    }
}

proof fn lemma_wins_among_push_key(w: Seq<Option<Seq<char>>>, keys: Seq<Seq<char>>, k: Seq<char>)
    requires
        !keys.contains(k),
    ensures
        wins_among(w, keys.push(k)) == wins_among(w, keys) + seats_won(w, k),
    decreases w.len(),
{
    if w.len() > 0 {
        lemma_wins_among_push_key(w.drop_last(), keys, k);
        match w.last() {
            Some(p) => {
                assert(keys.push(k).contains(p) == (keys.contains(p) || p == k)) by {
                    if keys.push(k).contains(p) {
                        let i = choose|i: int| 0 <= i < keys.len() + 1 && keys.push(k)[i] == p;
                        if i < keys.len() {
                            assert(keys[i] == p);
                        }
                    }
                    if keys.contains(p) {
                        let i = choose|i: int| 0 <= i < keys.len() && keys[i] == p;
                        assert(keys.push(k)[i] == p);
                    }
                    if p == k {
                        assert(keys.push(k)[keys.len() as int] == p);
                    }
                }
            },
            None => {},
        }
    }
}

proof fn lemma_seat_total_is_wins_among(r: Seq<(Seq<char>, usize)>, w: Seq<Option<Seq<char>>>)
    requires
        forall|i: int, j: int| 0 <= i < j < r.len() ==> r[i].0 != r[j].0,
        forall|i: int| 0 <= i < r.len() ==> r[i].1 == seats_won(w, #[trigger] r[i].0),
    ensures
        seat_total(r) == wins_among(w, r.map_values(|e: (Seq<char>, usize)| e.0)),
    decreases r.len(),
{
    let keys = r.map_values(|e: (Seq<char>, usize)| e.0);
    if r.len() == 0 {
        lemma_wins_among_no_keys(w, keys);
    } else {
        let s = r.drop_last();
        let sk = s.map_values(|e: (Seq<char>, usize)| e.0);
        lemma_seat_total_is_wins_among(s, w);
        assert(keys =~= sk.push(r.last().0));
        assert(!sk.contains(r.last().0)) by {
            if sk.contains(r.last().0) {
                let i = choose|i: int| 0 <= i < sk.len() && sk[i] == r.last().0;
                assert(r[i].0 == r[r.len() - 1].0);
            }
        }
        lemma_wins_among_push_key(w, sk, r.last().0);
    }
}

proof fn lemma_wins_among_no_keys(w: Seq<Option<Seq<char>>>, keys: Seq<Seq<char>>)
    requires
        keys.len() == 0,
    ensures
        wins_among(w, keys) == 0,
    decreases w.len(),
{
    if w.len() > 0 {
        lemma_wins_among_no_keys(w.drop_last(), keys);
    }
}

proof fn lemma_wins_among_all(w: Seq<Option<Seq<char>>>, keys: Seq<Seq<char>>)
    requires
        forall|i: int| 0 <= i < w.len() ==> won_by_listed(#[trigger] w[i], keys),
    ensures
        wins_among(w, keys) == w.len(),
    decreases w.len(),
{
    if w.len() > 0 {
        let s = w.drop_last();
        assert forall|i: int| 0 <= i < s.len() implies won_by_listed(#[trigger] s[i], keys) by {
            assert(s[i] == w[i]);
        }
        lemma_wins_among_all(s, keys);
        assert(w[w.len() - 1] == w.last());
    }
}

proof fn lemma_winner_has_seat(w: Seq<Option<Seq<char>>>, i: int, p: Seq<char>)
    requires
        0 <= i < w.len(),
        w[i] == Some(p),
    ensures
        seats_won(w, p) >= 1,
    decreases w.len(),
{
    if i < w.len() - 1 {
        assert(w.drop_last()[i] == w[i]);
        lemma_winner_has_seat(w.drop_last(), i, p);
    }
}

/// Seat conservation: when every constituency has at least one party with a
/// result, the plurality seat table hands out exactly one seat per
/// constituency.
pub proof fn lemma_seat_conservation(cs: Seq<ConstituencyResult>, r: Seq<(Seq<char>, usize)>)
    requires
        forall|i: int| 0 <= i < cs.len() ==> (#[trigger] cs[i]).results@.len() > 0,
        is_seat_table(r, fptp_winners(cs)),
    ensures
        seat_total(r) == cs.len(),
{
    let w = fptp_winners(cs);
    let keys = r.map_values(|e: (Seq<char>, usize)| e.0);
    lemma_seat_total_is_wins_among(r, w);
    assert forall|i: int| 0 <= i < w.len() implies won_by_listed(#[trigger] w[i], keys) by {
        let t = tallies_of(cs[i].results@);
        lemma_leader_exists(t);
        let k = choose|k: int| leads(t, k);
        lemma_leader_wins(t, k);
        let p = t[k].0;
        lemma_winner_has_seat(w, i, p);
        let j = choose|j: int| 0 <= j < r.len() && r[j].0 == p;
        assert(keys[j] == p);
    }
    lemma_wins_among_all(w, keys);
}

proof fn lemma_seats_won_is_count(w: Seq<Option<Seq<char>>>, p: Seq<char>)
    ensures
        seats_won(w, p) == w.to_multiset().count(Some(p)),
    decreases w.len(),
{
    broadcast use vstd::multiset::group_multiset_axioms;

    if w.len() == 0 {
        assert(w.to_multiset().len() == 0);
    } else {
        let s = w.drop_last();
        lemma_seats_won_is_count(s, p);
        assert(w =~= s.push(w.last()));
    }
}

proof fn lemma_map_keeps_multiset<A, B>(s1: Seq<A>, s2: Seq<A>, f: spec_fn(A) -> B)
    requires
        s1.to_multiset() == s2.to_multiset(),
    ensures
        s1.map_values(f).to_multiset() == s2.map_values(f).to_multiset(),
    decreases s1.len(),
{
    broadcast use vstd::multiset::group_multiset_axioms;

    if s1.len() == 0 {
        assert(s1.to_multiset().len() == s1.len());
        assert(s2.to_multiset().len() == s2.len());
        assert(s1.map_values(f) =~= s2.map_values(f));
    } else {
        let x = s1.last();
        let a = s1.drop_last();
        assert(s1 =~= a.push(x));
        assert(s2.to_multiset().count(x) > 0);
        assert(s2.contains(x));
        let j = choose|j: int| 0 <= j < s2.len() && s2[j] == x;
        let b = s2.remove(j);
        assert(b.to_multiset() == s2.to_multiset().remove(x));
        assert(a.to_multiset() =~= s1.to_multiset().remove(x));
        lemma_map_keeps_multiset(a, b, f);
        let m1 = s1.map_values(f);
        let m2 = s2.map_values(f);
        assert(m1 =~= a.map_values(f).push(f(x)));
        assert(m2.remove(j) =~= b.map_values(f));
        assert(m2[j] == f(x));
        assert(m2.to_multiset().count(f(x)) > 0);
        assert(m2.remove(j).to_multiset() == m2.to_multiset().remove(f(x)));
        assert(m1.to_multiset() =~= m2.to_multiset());
    }
}

proof fn lemma_seats_of_table(r: Seq<(Seq<char>, usize)>, w: Seq<Option<Seq<char>>>, p: Seq<char>)
    requires
        is_seat_table(r, w),
    ensures
        seats_of(r, p) == seats_won(w, p),
{
    if exists|i: int| 0 <= i < r.len() && r[i].0 == p {
        let i = choose|i: int| 0 <= i < r.len() && r[i].0 == p;
        assert(r[i].1 == seats_won(w, r[i].0));
    } else if seats_won(w, p) > 0 {
        assert(exists|i: int| 0 <= i < r.len() && r[i].0 == p);
    }
}

/// Plurality seats depend on the constituencies alone, not on the order in
/// which they are listed: two seat tables for the same constituencies, in
/// any order, give every party the same number of seats. (With the same
/// order this says that the result is determined by the input.)
pub proof fn lemma_seats_ignore_constituency_order(
    cs1: Seq<ConstituencyResult>,
    cs2: Seq<ConstituencyResult>,
    r1: Seq<(Seq<char>, usize)>,
    r2: Seq<(Seq<char>, usize)>,
)
    requires
        cs1.to_multiset() == cs2.to_multiset(),
        is_seat_table(r1, fptp_winners(cs1)),
        is_seat_table(r2, fptp_winners(cs2)),
    ensures
        forall|p: Seq<char>| seats_of(r1, p) == seats_of(r2, p),
{
    let f = |c: ConstituencyResult| plurality_winner(tallies_of(c.results@));
    lemma_map_keeps_multiset(cs1, cs2, f);
    assert(fptp_winners(cs1) == cs1.map_values(f));
    assert(fptp_winners(cs2) == cs2.map_values(f));
    assert forall|p: Seq<char>| seats_of(r1, p) == seats_of(r2, p) by {
        lemma_seats_of_table(r1, fptp_winners(cs1), p);
        lemma_seats_of_table(r2, fptp_winners(cs2), p);
        lemma_seats_won_is_count(fptp_winners(cs1), p);
        lemma_seats_won_is_count(fptp_winners(cs2), p);
    }
}

/// A constituency's plurality winner does not depend on the order in which
/// its results are listed.
pub proof fn lemma_winner_ignores_order(r1: Seq<(String, u32)>, r2: Seq<(String, u32)>)
    requires
        r1.to_multiset() == r2.to_multiset(),
    ensures
        plurality_winner(tallies_of(r1)) == plurality_winner(tallies_of(r2)),
{
    let f = |e: (String, u32)| (e.0@, e.1 as u64);
    lemma_map_keeps_multiset(r1, r2, f);
    let t1 = tallies_of(r1);
    let t2 = tallies_of(r2);
    assert(t1 == r1.map_values(f));
    assert(t2 == r2.map_values(f));
    assert(t1.len() == t2.len()) by {
        assert(t1.to_multiset().len() == t2.to_multiset().len());
    }
    if t1.len() > 0 {
        lemma_leader_exists(t1);
        let k = choose|k: int| leads(t1, k);
        let x = t1[k];
        assert(t1.to_multiset().count(x) > 0);
        assert(t2.contains(x));
        let j = choose|j: int| 0 <= j < t2.len() && t2[j] == x;
        assert forall|m: int| 0 <= m < t2.len() implies !outranks(#[trigger] t2[m], t2[j]) by {
            assert(t2.to_multiset().count(t2[m]) > 0);
            assert(t1.contains(t2[m]));
            let i = choose|i: int| 0 <= i < t1.len() && t1[i] == t2[m];
            assert(!outranks(t1[i], t1[k]));
        }
        assert(leads(t2, j));
        lemma_leader_wins(t1, k);
        lemma_leader_wins(t2, j);
    } else {
        assert(!exists|i: int| leads(t1, i));
        assert(!exists|i: int| leads(t2, i));
    }
}

/// Where every constituency has at most two parties, no party is ever
/// eliminated, and the alternative vote elects the plurality winner.
pub proof fn lemma_two_party_av_is_fptp(f: FlowTables, cs: Seq<ConstituencyResult>)
    requires
        forall|i: int| 0 <= i < cs.len() ==> (#[trigger] cs[i]).results@.len() <= 2,
    ensures
        av_winners(f, cs) == fptp_winners(cs),
{
    assert forall|i: int| 0 <= i < cs.len() implies #[trigger] av_winners(f, cs)[i] == fptp_winners(
        cs,
    )[i] by {
        let t = tallies_of(cs[i].results@);
        assert(runoff(f, t, Seq::empty(), t.len()) == t);
    }
    assert(av_winners(f, cs) =~= fptp_winners(cs));
}

proof fn lemma_unlisted_share(table: Seq<(Seq<char>, u32)>, to: Seq<char>)
    requires
        forall|i: int| 0 <= i < table.len() ==> (#[trigger] table[i]).0 != to,
    ensures
        share_in(table, to) == 0,
    decreases table.len(),
{
    if table.len() > 0 {
        assert(table[0].0 != to);
        assert forall|i: int| 0 <= i < table.len() - 1 implies (#[trigger] table.drop_first()[i]).0
            != to by {
            assert(table.drop_first()[i] == table[i + 1]);
        }
        lemma_unlisted_share(table.drop_first(), to);
    }
}

/// A party that the loser's flow table does not list is owed no share, and
/// an elimination leaves its votes as they were: a missing entry counts as a
/// share of zero and is no error.
pub proof fn lemma_unlisted_target_gains_nothing(f: FlowTables, from: Seq<char>, to: Seq<char>)
    requires
        forall|i: int|
            0 <= i < table_of(f, from).len() ==> (#[trigger] table_of(f, from)[i]).0 != to,
    ensures
        share_of(f, from, to) == 0,
        forall|v: u64, votes: u64, spread: u64, weight: int|
            #[trigger] tally_after(v, share_of(f, from, to), votes, spread, weight) == v,
{
    lemma_unlisted_share(table_of(f, from), to);
    assert forall|v: u64, votes: u64, spread: u64, weight: int|
        #[trigger] tally_after(v, share_of(f, from, to), votes, spread, weight) == v by {
        assert(votes * 0u32 == 0);
        assert(spread * 0u32 == 0);
        if weight > 0 {
            lemma_basic_div(weight, 2 * weight);
        }
    }
}

} // verus!
