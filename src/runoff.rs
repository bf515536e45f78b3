//! The alternative vote: eliminate the last-placed party and pass its votes
//! on, until two parties remain.
use vstd::prelude::*;
use crate::model::{
    PreferenceFlows, Tally, flows_view, share_view, tallies_from_results, tallies_of, tally_view,
};
use crate::ranking::{
    first_place, last_place, last_place_index, lemma_last_place_in_bounds, lemma_leader_wins,
    leads, plurality_winner,
};
use crate::transfer::{
    FlowTables, capped, find_table, name_listed, round_div, sat_add, share_in, table_of,
    table_share, transfer, transferred_votes,
};

verus! {

/// The names of a list of parties.
pub open spec fn names_view(names: Seq<String>) -> Seq<Seq<char>> {
    names.map_values(|s: String| s@)
}

/// The votes that `table` sends to parties already out of the race.
pub open spec fn stranded(table: Seq<(Seq<char>, u32)>, out: Seq<Seq<char>>, votes: u64) -> int
    decreases table.len(),
{
    if table.len() == 0 {
        0
    } else {
        stranded(table.drop_last(), out, votes) + if out.contains(table.last().0) {
            transfer(votes, table.last().1)
        } else {
            0
        }
    }
}

/// The sum of the shares that `table` gives to the parties of `rest`.
pub open spec fn live_weight(table: Seq<(Seq<char>, u32)>, rest: Seq<Tally>) -> int
    decreases rest.len(),
{
    if rest.len() == 0 {
        0
    } else {
        live_weight(table, rest.drop_last()) + share_in(table, rest.last().0)
    }
}

/// A remaining party's votes after an elimination: the direct transfer of
/// its share of the loser's votes, then its part of the stranded votes,
/// in proportion to its share among the remaining parties.
pub open spec fn tally_after(v: u64, share: u32, votes: u64, spread: u64, weight: int) -> u64 {
    let direct = sat_add(v, transfer(votes, share));
    if weight > 0 {
        sat_add(direct, round_div(spread * share, weight))
    } else {
        direct
    }
}

/// One round: the last-placed party leaves and its votes are passed on.
/// Returns the remaining tallies and the parties eliminated so far.
pub open spec fn eliminate(f: FlowTables, t: Seq<Tally>, out: Seq<Seq<char>>) -> (
    Seq<Tally>,
    Seq<Seq<char>>,
) {
    let k = last_place(t);
    let loser = t[k];
    let rest = t.remove(k);
    let gone = out.push(loser.0);
    let table = table_of(f, loser.0);
    let spread = capped(stranded(table, gone, loser.1));
    let weight = live_weight(table, rest);
    (
        rest.map_values(
            |e: Tally| (e.0, tally_after(e.1, share_in(table, e.0), loser.1, spread, weight)),
        ),
        gone,
    )
}

/// The tallies left once rounds have run until at most two parties remain
/// (or `rounds` rounds have run).
pub open spec fn runoff(f: FlowTables, t: Seq<Tally>, out: Seq<Seq<char>>, rounds: nat) -> Seq<
    Tally,
>
    decreases rounds,
{
    if t.len() <= 2 || rounds == 0 {
        t
    } else {
        let (next, gone) = eliminate(f, t, out);
        runoff(f, next, gone, (rounds - 1) as nat)
    }
}

/// The alternative-vote winner of a constituency's tallies.
pub open spec fn av_winner(f: FlowTables, t: Seq<Tally>) -> Option<Seq<char>> {
    plurality_winner(runoff(f, t, Seq::empty(), t.len()))
}

/// A round leaves one tally fewer.
pub proof fn lemma_eliminate_len(f: FlowTables, t: Seq<Tally>, out: Seq<Seq<char>>)
    requires
        t.len() >= 1,
    ensures
        eliminate(f, t, out).0.len() == t.len() - 1,
        eliminate(f, t, out).1 == out.push(t[last_place(t)].0),
{
    lemma_last_place_in_bounds(t);
}

/// `v + x`, held at the largest `u64`.
fn add_capped(v: u64, x: u128) -> (r: u64)
    ensures
        r == sat_add(v, x as int),
{
    if x >= (u64::MAX - v) as u128 {
        u64::MAX
    } else {
        v + x as u64
    }
}

/// The votes that the loser's table sends to parties already eliminated,
/// held at the largest `u64`.
pub fn stranded_votes(table: &Vec<(String, u32)>, eliminated: &Vec<String>, votes: u64) -> (r:
    u64)
    ensures
        r == capped(stranded(share_view(table@), names_view(eliminated@), votes)),
{
    let ghost t = share_view(table@);
    let ghost out = names_view(eliminated@);
    let mut acc: u64 = 0;
    let mut i: usize = 0;
    assert(t.take(0) =~= Seq::<(Seq<char>, u32)>::empty());
    while i < table.len()
        invariant
            t == share_view(table@),
            out == names_view(eliminated@),
            i <= table@.len(),
            acc == capped(stranded(t.take(i as int), out, votes)),
            stranded(t.take(i as int), out, votes) >= 0,
        decreases table.len() - i,
    {
        assert(t.take(i + 1).drop_last() =~= t.take(i as int));
        if name_listed(eliminated, &table[i].0) {
            let moved = transferred_votes(votes, table[i].1);
            acc = add_capped(acc, moved);
        }
        i = i + 1;
    }
    assert(t.take(i as int) =~= t);
    acc
}

/// The sum of the shares that the loser's table gives to the parties left.
pub fn live_weight_of(table: &Vec<(String, u32)>, rest: &Vec<(String, u64)>) -> (r: u128)
    ensures
        r == live_weight(share_view(table@), tally_view(rest@)),
        r <= 0x1_0000_0000_0000_0000_0000_0000,
{
    let ghost t = share_view(table@);
    let ghost v = tally_view(rest@);
    let mut acc: u128 = 0;
    let mut i: usize = 0;
    assert(v.take(0) =~= Seq::<Tally>::empty());
    while i < rest.len()
        invariant
            t == share_view(table@),
            v == tally_view(rest@),
            i <= rest@.len(),
            acc == live_weight(t, v.take(i as int)),
            acc <= i * 0x1_0000_0000,
        decreases rest.len() - i,
    {
        assert(v.take(i + 1).drop_last() =~= v.take(i as int));
        let share = table_share(table, &rest[i].0);
        assert(i * 0x1_0000_0000 + 0x1_0000_0000 <= 0x1_0000_0000_0000_0000 * 0x1_0000_0000)
            by (nonlinear_arith)
            requires
                i < 0x1_0000_0000_0000_0000,
        ;
        acc = acc + share as u128;
        i = i + 1;
    }
    assert(v.take(i as int) =~= v);
    assert(i * 0x1_0000_0000 <= 0x1_0000_0000_0000_0000 * 0x1_0000_0000) by (nonlinear_arith)
        requires
            i < 0x1_0000_0000_0000_0000,
    ;
    acc
}

/// A remaining party's votes after an elimination (see `tally_after`).
fn next_tally(v: u64, share: u32, votes: u64, spread: u64, weight: u128) -> (r: u64)
    requires
        weight <= 0x1_0000_0000_0000_0000_0000_0000,
    ensures
        r == tally_after(v, share, votes, spread, weight as int),
{
    let direct = add_capped(v, transferred_votes(votes, share));
    if weight > 0 {
        proof {
            assert(spread * share <= 0x1_0000_0000_0000_0000 * 0x1_0000_0000) by (nonlinear_arith)
                requires
                    spread <= u64::MAX,
                    share <= u32::MAX,
            ;
        }
        let product = (spread as u128) * (share as u128);
        let part = (2 * product + weight) / (2 * weight);
        add_capped(direct, part)
    } else {
        direct
    }
}

/// Runs one round on `tallies`: the last-placed party is removed and added
/// to `eliminated`, and its votes are passed on.
pub fn eliminate_last_place(
    flows: &PreferenceFlows,
    tallies: &mut Vec<(String, u64)>,
    eliminated: &mut Vec<String>,
)
    requires
        old(tallies)@.len() >= 1,
    ensures
        tally_view(final(tallies)@) == eliminate(
            flows_view(*flows),
            tally_view(old(tallies)@),
            names_view(old(eliminated)@),
        ).0,
        names_view(final(eliminated)@) == eliminate(
            flows_view(*flows),
            tally_view(old(tallies)@),
            names_view(old(eliminated)@),
        ).1,
{
    let ghost f = flows_view(*flows);
    let ghost t0 = tally_view(tallies@);
    let ghost out0 = names_view(eliminated@);
    let k = last_place_index(tallies);
    let (loser, votes) = tallies.remove(k);
    assert(tally_view(tallies@) =~= t0.remove(k as int));
    let empty: Vec<(String, u32)> = Vec::new();
    let found = find_table(flows, &loser);
    let table = match found {
        Some(i) => &flows.tables[i].1,
        None => &empty,
    };
    assert(share_view(table@) =~= table_of(f, loser@));
    eliminated.push(loser);
    assert(names_view(eliminated@) =~= out0.push(t0[k as int].0));
    let spread = stranded_votes(table, eliminated, votes);
    let weight = live_weight_of(table, tallies);
    let ghost expected = eliminate(f, t0, out0).0;
    let ghost rest = tally_view(tallies@);
    let ghost tv = share_view(table@);
    assert(expected =~= rest.map_values(
        |e: Tally| (e.0, tally_after(e.1, share_in(tv, e.0), votes, spread, weight as int)),
    ));
    let mut next: Vec<(String, u64)> = Vec::new();
    let mut i: usize = 0;
    while i < tallies.len()
        invariant
            rest == tally_view(tallies@),
            tv == share_view(table@),
            expected.len() == rest.len(),
            forall|j: int|
                0 <= j < rest.len() ==> #[trigger] expected[j] == (
                    rest[j].0,
                    tally_after(rest[j].1, share_in(tv, rest[j].0), votes, spread, weight as int),
                ),
            rest == t0.remove(k as int),
            share_view(table@) == table_of(f, t0[k as int].0),
            votes == t0[k as int].1,
            spread == capped(stranded(share_view(table@), names_view(eliminated@), votes)),
            names_view(eliminated@) == out0.push(t0[k as int].0),
            weight == live_weight(share_view(table@), rest),
            weight <= 0x1_0000_0000_0000_0000_0000_0000,
            i <= tallies@.len(),
            tally_view(next@) == expected.take(i as int),
        decreases tallies.len() - i,
    {
        let share = table_share(table, &tallies[i].0);
        let v = next_tally(tallies[i].1, share, votes, spread, weight);
        let ghost before = next@;
        next.push((tallies[i].0.clone(), v));
        assert(tally_view(next@) =~= tally_view(before).push(expected[i as int]));
        assert(expected.take(i + 1) =~= expected.take(i as int).push(expected[i as int]));
        i = i + 1;
    }
    assert(expected.take(i as int) =~= expected);
    *tallies = next;
}

/// The alternative-vote winner of a constituency: parties are eliminated
/// from the bottom, their votes passed on by `flows`, until two remain; the
/// leader of those two wins. `None` when nobody polled.
pub fn resolve_alternative_vote(results: &Vec<(String, u32)>, flows: &PreferenceFlows) -> (r:
    Option<String>)
    ensures
        match r {
            Some(w) => av_winner(flows_view(*flows), tallies_of(results@)) == Some(w@),
            None => av_winner(flows_view(*flows), tallies_of(results@)) == None::<Seq<char>>,
        },
{
    let ghost f = flows_view(*flows);
    let ghost t0 = tallies_of(results@);
    let mut tallies = tallies_from_results(results);
    let mut eliminated: Vec<String> = Vec::new();
    let ghost mut rounds: nat = t0.len();
    assert(names_view(eliminated@) =~= Seq::<Seq<char>>::empty());
    while tallies.len() > 2
        invariant
            f == flows_view(*flows),
            runoff(f, t0, Seq::empty(), t0.len()) == runoff(
                f,
                tally_view(tallies@),
                names_view(eliminated@),
                rounds,
            ),
            rounds >= tallies@.len(),
        decreases tallies.len(),
    {
        let ghost cur = tally_view(tallies@);
        let ghost out = names_view(eliminated@);
        proof {
            lemma_eliminate_len(f, cur, out);
            assert(runoff(f, cur, out, rounds) == runoff(
                f,
                eliminate(f, cur, out).0,
                eliminate(f, cur, out).1,
                (rounds - 1) as nat,
            ));
        }
        eliminate_last_place(flows, &mut tallies, &mut eliminated);
        proof {
            rounds = (rounds - 1) as nat;
        }
    }
    let ghost last = tally_view(tallies@);
    match first_place(&tallies) {
        Some(i) => {
            proof {
                lemma_leader_wins(last, i as int);
            }
            Some(tallies[i].0.clone())
        },
        None => {
            assert(!exists|i: int| leads(last, i));
            None
        },
    }
}

} // verus!
