//! Preference-flow lookups and the arithmetic of vote transfers.
use vstd::prelude::*;
use crate::model::{PreferenceFlows, SHARE_SCALE, flows_view, share_view};

verus! {

/// The flow tables as plain values: (eliminated party, [(target, share)]).
pub type FlowTables = Seq<(Seq<char>, Seq<(Seq<char>, u32)>)>;

/// The first table listed for `from`; an empty one if there is none.
pub open spec fn table_of(f: FlowTables, from: Seq<char>) -> Seq<(Seq<char>, u32)>
    decreases f.len(),
{
    if f.len() == 0 {
        Seq::empty()
    } else if f[0].0 == from {
        f[0].1
    } else {
        table_of(f.drop_first(), from)
    }
}

/// The first share that `table` lists for `to`; zero if there is none.
pub open spec fn share_in(table: Seq<(Seq<char>, u32)>, to: Seq<char>) -> u32
    decreases table.len(),
{
    if table.len() == 0 {
        0
    } else if table[0].0 == to {
        table[0].1
    } else {
        share_in(table.drop_first(), to)
    }
}

/// The share of `from`'s votes that passes to `to`.
pub open spec fn share_of(f: FlowTables, from: Seq<char>, to: Seq<char>) -> u32 {
    share_in(table_of(f, from), to)
}

/// `n / d` rounded to the nearest integer, halves away from zero.
pub open spec fn round_div(n: int, d: int) -> int
    recommends
        n >= 0,
        d > 0,
{
    (2 * n + d) / (2 * d)
}

/// The votes that move when `share` millionths of `votes` are transferred.
pub open spec fn transfer(votes: u64, share: u32) -> int {
    round_div(votes * share, SHARE_SCALE as int)
}

/// `x` added to `v`, held at the largest `u64`.
pub open spec fn sat_add(v: u64, x: int) -> u64 {
    if v + x > u64::MAX {
        u64::MAX
    } else {
        (v + x) as u64
    }
}

/// `x`, held at the largest `u64`.
pub open spec fn capped(x: int) -> u64 {
    if x > u64::MAX {
        u64::MAX
    } else {
        x as u64
    }
}

/// Whether `names` lists `n`.
pub fn name_listed(names: &Vec<String>, n: &String) -> (r: bool)
    ensures
        r == names@.map_values(|s: String| s@).contains(n@),
{
    let ghost v = names@.map_values(|s: String| s@);
    let mut i: usize = 0;
    while i < names.len()
        invariant
            v == names@.map_values(|s: String| s@),
            i <= names.len(),
            forall|j: int| 0 <= j < i ==> v[j] != n@,
        decreases names.len() - i,
    {
        if names[i] == *n {
            assert(v[i as int] == n@);
            return true;
        }
        i = i + 1;
    }
    false
}

/// The position of the table that `from`'s transfers are read from.
pub fn find_table(flows: &PreferenceFlows, from: &String) -> (r: Option<usize>)
    ensures
        match r {
            Some(i) => i < flows.tables@.len() && flows_view(*flows)[i as int].1 == table_of(
                flows_view(*flows),
                from@,
            ),
            None => table_of(flows_view(*flows), from@) == Seq::<(Seq<char>, u32)>::empty(),
        },
{
    let ghost f = flows_view(*flows);
    let mut i: usize = 0;
    assert(f.skip(0) =~= f);
    while i < flows.tables.len()
        invariant
            f == flows_view(*flows),
            i <= flows.tables@.len(),
            table_of(f, from@) == table_of(f.skip(i as int), from@),
        decreases flows.tables.len() - i,
    {
        if flows.tables[i].0 == *from {
            return Some(i);
        }
        assert(f.skip(i as int).drop_first() =~= f.skip(i + 1));
        i = i + 1;
    }
    None
}

/// The share that `table` lists for `to`, zero if it lists none.
pub fn table_share(table: &Vec<(String, u32)>, to: &String) -> (r: u32)
    ensures
        r == share_in(share_view(table@), to@),
{
    let ghost t = share_view(table@);
    let mut i: usize = 0;
    assert(t.skip(0) =~= t);
    while i < table.len()
        invariant
            t == share_view(table@),
            i <= table@.len(),
            share_in(t, to@) == share_in(t.skip(i as int), to@),
        decreases table.len() - i,
    {
        if table[i].0 == *to {
            return table[i].1;
        }
        assert(t.skip(i as int).drop_first() =~= t.skip(i + 1));
        i = i + 1;
    }
    0
}

/// The share of `from`'s votes that passes to `to`. A pair that the flows do
/// not list passes nothing.
pub fn preference_share(flows: &PreferenceFlows, from: &String, to: &String) -> (r: u32)
    ensures
        r == share_of(flows_view(*flows), from@, to@),
{
    match find_table(flows, from) {
        Some(i) => table_share(&flows.tables[i].1, to),
        None => 0,
    }
}

/// The votes that move when `share` millionths of `votes` are transferred,
/// rounded to the nearest vote.
pub fn transferred_votes(votes: u64, share: u32) -> (r: u128)
    ensures
        r == transfer(votes, share),
{
    proof {
        assert(votes * share <= 0x1_0000_0000_0000_0000 * 0x1_0000_0000) by (nonlinear_arith)
            requires
                votes <= u64::MAX,
                share <= u32::MAX,
        ;
    }
    let scale = SHARE_SCALE as u128;
    let product = (votes as u128) * (share as u128);
    (2 * product + scale) / (2 * scale)
}

} // verus!
