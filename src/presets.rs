//! Ready-made inputs: flow tables that split a party's votes evenly between
//! its rivals, and a small two-party election.
use vstd::prelude::*;
use crate::model::{
    Candidate, Constituency, ConstituencyResult, ElectionResult, Party, PreferenceFlows,
    Timestamp, flows_view, share_view,
};
use crate::transfer::FlowTables;

verus! {

/// Half of a voter, in millionths.
pub const EVEN_SHARE: u32 = 500_000;

/// The party names of a list of candidates, in order.
pub open spec fn standing_parties(cands: Seq<Candidate>) -> Seq<Seq<char>> {
    cands.map_values(|k: Candidate| k.party.name@)
}

/// The names that a flow table or a list of tables is keyed by.
pub open spec fn targets_of(t: Seq<(Seq<char>, u32)>) -> Seq<Seq<char>> {
    t.map_values(|e: (Seq<char>, u32)| e.0)
}

pub open spec fn keys_of(f: FlowTables) -> Seq<Seq<char>> {
    f.map_values(|e: (Seq<char>, Seq<(Seq<char>, u32)>)| e.0)
}

/// The table for `p` among `parties`: an even share to each other party,
/// once each, in order of first appearance.
pub open spec fn rival_shares(parties: Seq<Seq<char>>, p: Seq<char>) -> Seq<(Seq<char>, u32)>
    decreases parties.len(),
{
    if parties.len() == 0 {
        Seq::empty()
    } else {
        let prev = rival_shares(parties.drop_last(), p);
        let q = parties.last();
        if q == p || targets_of(prev).contains(q) {
            prev
        } else {
            prev.push((q, EVEN_SHARE))
        }
    }
}

/// `f` with a table added, for each of the first `n` of `parties` that has
/// none yet, of even shares to its rivals among `parties`.
pub open spec fn add_even_tables(f: FlowTables, parties: Seq<Seq<char>>, n: int) -> FlowTables
    decreases n,
{
    if n <= 0 {
        f
    } else {
        let prev = add_even_tables(f, parties, n - 1);
        let p = parties[n - 1];
        if keys_of(prev).contains(p) {
            prev
        } else {
            prev.push((p, rival_shares(parties, p)))
        }
    }
}

/// Even-share tables for every party, each built from the first
/// constituency (in order) where the party stands.
pub open spec fn even_flows(cs: Seq<Seq<Seq<char>>>) -> FlowTables
    decreases cs.len(),
{
    if cs.len() == 0 {
        Seq::empty()
    } else {
        let c = cs.last();
        add_even_tables(even_flows(cs.drop_last()), c, c.len() as int)
    }
}

/// The standing parties of each constituency, in order.
pub open spec fn field_of(cs: Seq<ConstituencyResult>) -> Seq<Seq<Seq<char>>> {
    cs.map_values(|c: ConstituencyResult| standing_parties(c.constituency.candidates@))
}

/// Whether `table` lists `q` as a target.
fn lists_target(table: &Vec<(String, u32)>, q: &String) -> (r: bool)
    ensures
        r == targets_of(share_view(table@)).contains(q@),
{
    let ghost ts = targets_of(share_view(table@));
    let mut i: usize = 0;
    while i < table.len()
        invariant
            ts == targets_of(share_view(table@)),
            i <= table@.len(),
            forall|j: int| 0 <= j < i ==> ts[j] != q@,
        decreases table.len() - i,
    {
        if table[i].0 == *q {
            assert(ts[i as int] == q@);
            return true;
        }
        i = i + 1;
    }
    false
}

/// Whether `flows` holds a table for `p`.
fn has_table(flows: &PreferenceFlows, p: &String) -> (r: bool)
    ensures
        r == keys_of(flows_view(*flows)).contains(p@),
{
    let ghost ks = keys_of(flows_view(*flows));
    let mut i: usize = 0;
    while i < flows.tables.len()
        invariant
            ks == keys_of(flows_view(*flows)),
            i <= flows.tables@.len(),
            forall|j: int| 0 <= j < i ==> ks[j] != p@,
        decreases flows.tables.len() - i,
    {
        if flows.tables[i].0 == *p {
            assert(ks[i as int] == p@);
            return true;
        }
        i = i + 1;
    }
    false
}

/// The table for party `p` among `cands`: an even share to each other
/// party standing, once each.
pub fn rival_table(cands: &Vec<Candidate>, p: &String) -> (r: Vec<(String, u32)>)
    ensures
        share_view(r@) == rival_shares(standing_parties(cands@), p@),
{
    let ghost ps = standing_parties(cands@);
    let mut r: Vec<(String, u32)> = Vec::new();
    let mut i: usize = 0;
    assert(share_view(r@) =~= rival_shares(ps.take(0), p@));
    while i < cands.len()
        invariant
            ps == standing_parties(cands@),
            i <= cands@.len(),
            share_view(r@) == rival_shares(ps.take(i as int), p@),
        decreases cands.len() - i,
    {
        assert(ps.take(i + 1).drop_last() =~= ps.take(i as int));
        let q = &cands[i].party.name;
        if !(*q == *p) && !lists_target(&r, q) {
            let ghost before = r@;
            r.push((q.clone(), EVEN_SHARE));
            assert(share_view(r@) =~= share_view(before).push((q@, EVEN_SHARE)));
        }
        i = i + 1;
    }
    assert(ps.take(i as int) =~= ps);
    r
}

/// Flow tables that pass half of a party's votes to each rival it meets in
/// the first constituency where it stands.
pub fn get_preference_flows(election_result: &ElectionResult) -> (r: PreferenceFlows)
    ensures
        flows_view(r) == even_flows(field_of(election_result.constituencies@)),
{
    let ghost field = field_of(election_result.constituencies@);
    let mut flows = PreferenceFlows { tables: Vec::new() };
    let mut i: usize = 0;
    assert(flows_view(flows) =~= even_flows(field.take(0)));
    while i < election_result.constituencies.len()
        invariant
            field == field_of(election_result.constituencies@),
            i <= election_result.constituencies@.len(),
            flows_view(flows) == even_flows(field.take(i as int)),
        decreases election_result.constituencies.len() - i,
    {
        let cands = &election_result.constituencies[i].constituency.candidates;
        let ghost base = flows_view(flows);
        let ghost ps = standing_parties(cands@);
        assert(ps == field[i as int]);
        let mut j: usize = 0;
        while j < cands.len()
            invariant
                ps == standing_parties(cands@),
                j <= cands@.len(),
                flows_view(flows) == add_even_tables(base, ps, j as int),
            decreases cands.len() - j,
        {
            let p = &cands[j].party.name;
            if !has_table(&flows, p) {
                let table = rival_table(cands, p);
                let ghost before = flows_view(flows);
                flows.tables.push((p.clone(), table));
                assert(flows_view(flows) =~= before.push((p@, rival_shares(ps, p@))));
            }
            j = j + 1;
        }
        assert(field.take(i + 1).drop_last() =~= field.take(i as int));
        i = i + 1;
    }
    assert(field.take(i as int) =~= field);
    flows
}

/// A one-constituency election between Party A (Alice, 2 votes) and
/// Party B (Bob, 1 vote), dated `datetime`.
pub fn setup_two_party_fptp_election(datetime: Timestamp) -> (r: ElectionResult)
    ensures
        r.datetime == datetime,
        r.constituencies@.len() == 1,
        r.constituencies@[0].constituency.name@ == "Constituency 1"@,
        r.constituencies@[0].constituency.candidates@.len() == 2,
        r.constituencies@[0].constituency.candidates@[0].name@ == "Alice"@,
        r.constituencies@[0].constituency.candidates@[0].party.name@ == "Party A"@,
        r.constituencies@[0].constituency.candidates@[1].name@ == "Bob"@,
        r.constituencies@[0].constituency.candidates@[1].party.name@ == "Party B"@,
        r.constituencies@[0].results@.len() == 2,
        r.constituencies@[0].results@[0].0@ == "Party A"@,
        r.constituencies@[0].results@[0].1 == 2,
        r.constituencies@[0].results@[1].0@ == "Party B"@,
        r.constituencies@[0].results@[1].1 == 1,
        r.overall_result@.len() == 2,
        r.overall_result@[0].0@ == "Party A"@,
        r.overall_result@[0].1 == 2,
        r.overall_result@[1].0@ == "Party B"@,
        r.overall_result@[1].1 == 1,
{
    let party1 = Party { name: "Party A".to_owned() };
    let party2 = Party { name: "Party B".to_owned() };
    let name1 = party1.name.clone();
    let name2 = party2.name.clone();
    let total1 = party1.name.clone();
    let total2 = party2.name.clone();
    let candidate1 = Candidate { name: "Alice".to_owned(), party: party1 };
    let candidate2 = Candidate { name: "Bob".to_owned(), party: party2 };
    let constituency = Constituency {
        name: "Constituency 1".to_owned(),
        candidates: vec![candidate1, candidate2],
    };
    let constituency_result = ConstituencyResult {
        constituency,
        results: vec![(name1, 2u32), (name2, 1u32)],
    };
    ElectionResult {
        datetime,
        constituencies: vec![constituency_result],
        overall_result: vec![(total1, 2u32), (total2, 1u32)],
    }
}

} // verus!
