//! Resolving every constituency under an electoral system and counting the
//! seats each party wins.
use vstd::prelude::*;
use crate::model::{
    ConstituencyResult, ElectionResult, ElectoralSystem, PreferenceFlows, SimulationError,
    flows_view, tallies_from_results, tallies_of, tally_view,
};
use crate::ranking::{first_place, leads, lemma_leader_wins, plurality_winner};
use crate::runoff::{av_winner, resolve_alternative_vote};
use crate::transfer::FlowTables;

verus! {

/// The number of seats that `p` takes in the constituency winners `w`.
pub open spec fn seats_won(w: Seq<Option<Seq<char>>>, p: Seq<char>) -> nat
    decreases w.len(),
{
    if w.len() == 0 {
        0
    } else {
        seats_won(w.drop_last(), p) + if w.last() == Some(p) {
            1nat
        } else {
            0nat
        }
    }
}

/// `r` lists each party that won a seat in `w` once, with its number of seats,
/// and no other party.
pub open spec fn is_seat_table(r: Seq<(Seq<char>, usize)>, w: Seq<Option<Seq<char>>>) -> bool {
    &&& forall|i: int, j: int| 0 <= i < j < r.len() ==> r[i].0 != r[j].0
    &&& forall|i: int|
        0 <= i < r.len() ==> r[i].1 == seats_won(w, #[trigger] r[i].0) && r[i].1 > 0
    &&& forall|p: Seq<char>|
        #[trigger] seats_won(w, p) > 0 ==> exists|i: int| 0 <= i < r.len() && r[i].0 == p
}

/// A seat table as plain values.
pub open spec fn seat_view(r: Seq<(String, usize)>) -> Seq<(Seq<char>, usize)> {
    r.map_values(|e: (String, usize)| (e.0@, e.1))
}

/// The plurality winner of each constituency, in order.
pub open spec fn fptp_winners(cs: Seq<ConstituencyResult>) -> Seq<Option<Seq<char>>> {
    cs.map_values(|c: ConstituencyResult| plurality_winner(tallies_of(c.results@)))
}

/// The alternative-vote winner of each constituency, in order.
pub open spec fn av_winners(f: FlowTables, cs: Seq<ConstituencyResult>) -> Seq<
    Option<Seq<char>>,
> {
    cs.map_values(|c: ConstituencyResult| av_winner(f, tallies_of(c.results@)))
}

/// The name that an optional winner carries.
pub open spec fn winner_view(w: Option<String>) -> Option<Seq<char>> {
    match w {
        Some(s) => Some(s@),
        None => None,
    }
}

pub proof fn lemma_seats_won_bounded(w: Seq<Option<Seq<char>>>, p: Seq<char>)
    ensures
        seats_won(w, p) <= w.len(),
    decreases w.len(),
{
    if w.len() > 0 {
        lemma_seats_won_bounded(w.drop_last(), p);
    }
}

/// The plurality winner of a constituency: the party with the most votes,
/// the first in name order among equals. `None` when nobody polled.
pub fn resolve_first_past_the_post(results: &Vec<(String, u32)>) -> (r: Option<String>)
    ensures
        winner_view(r) == plurality_winner(tallies_of(results@)),
{
    let tallies = tallies_from_results(results);
    let ghost t = tally_view(tallies@);
    match first_place(&tallies) {
        Some(i) => {
            proof {
                lemma_leader_wins(t, i as int);
            }
            Some(tallies[i].0.clone())
        },
        None => {
            assert(!exists|i: int| leads(t, i));
            None
        },
    }
}

/// A constituency without a winner changes no party's seats.
pub proof fn lemma_no_winner_no_seat(w: Seq<Option<Seq<char>>>, r: Seq<(Seq<char>, usize)>)
    requires
        is_seat_table(r, w),
    ensures
        is_seat_table(r, w.push(None)),
{
    let w2 = w.push(None);
    assert(w2.drop_last() =~= w);
    assert forall|p: Seq<char>| #[trigger] seats_won(w2, p) == seats_won(w, p) by {}
}

/// Adds the seat of one more constituency, won by `name`, to `table`.
fn record_winner(
    table: &mut Vec<(String, usize)>,
    name: String,
    Ghost(w): Ghost<Seq<Option<Seq<char>>>>,
)
    requires
        is_seat_table(seat_view(old(table)@), w),
        w.len() < usize::MAX,
    ensures
        is_seat_table(seat_view(final(table)@), w.push(Some(name@))),
{
    let ghost w2 = w.push(Some(name@));
    assert(w2.drop_last() =~= w);
    let ghost t = seat_view(table@);
    let mut j: usize = 0;
    while j < table.len() && !(table[j].0 == name)
        invariant
            t == seat_view(table@),
            j <= table@.len(),
            forall|i: int| 0 <= i < j ==> t[i].0 != name@,
        decreases table.len() - j,
    {
        j = j + 1;
    }
    assert forall|p: Seq<char>| p != name@ implies #[trigger] seats_won(w2, p) == seats_won(w, p) by {}
    proof {
        lemma_seats_won_bounded(w, name@);
    }
    if j < table.len() {
        assert(t[j as int].0 == name@);
        let seats = table[j].1 + 1;
        table.set(j, (name, seats));
        let ghost n = seat_view(table@);
        assert(n =~= t.update(j as int, (name@, seats)));
        assert forall|i: int| 0 <= i < n.len() implies n[i].1 == seats_won(w2, #[trigger] n[i].0)
            && n[i].1 > 0 by {
            if i != j {
                assert(t[i].0 != t[j as int].0);
            }
        }
        assert forall|p: Seq<char>| #[trigger] seats_won(w2, p) > 0 implies exists|i: int|
            0 <= i < n.len() && n[i].0 == p by {
            if p != name@ {
                let i = choose|i: int| 0 <= i < t.len() && t[i].0 == p;
                assert(n[i].0 == p);
            } else {
                assert(n[j as int].0 == p);
            }
        }
        assert(is_seat_table(n, w2));
    } else {
        assert(seats_won(w, name@) == 0);
        table.push((name, 1));
        let ghost n = seat_view(table@);
        assert(n =~= t.push((name@, 1usize)));
        assert forall|i: int| 0 <= i < n.len() implies n[i].1 == seats_won(w2, #[trigger] n[i].0)
            && n[i].1 > 0 by {
            if i < t.len() {
                assert(t[i].0 != name@);
            }
        }
        assert forall|p: Seq<char>| #[trigger] seats_won(w2, p) > 0 implies exists|i: int|
            0 <= i < n.len() && n[i].0 == p by {
            if p != name@ {
                let i = choose|i: int| 0 <= i < t.len() && t[i].0 == p;
                assert(n[i].0 == p);
            } else {
                assert(n[t.len() as int].0 == p);
            }
        }
        assert(is_seat_table(n, w2));
    }
}

/// The seat table when every constituency goes to its plurality winner.
pub fn simulate_first_past_the_post(election_result: &ElectionResult) -> (r: Vec<(String, usize)>)
    ensures
        is_seat_table(seat_view(r@), fptp_winners(election_result.constituencies@)),
{
    let ghost w = fptp_winners(election_result.constituencies@);
    let mut table: Vec<(String, usize)> = Vec::new();
    let mut i: usize = 0;
    assert(seat_view(table@) =~= Seq::<(Seq<char>, usize)>::empty());
    while i < election_result.constituencies.len()
        invariant
            w == fptp_winners(election_result.constituencies@),
            i <= election_result.constituencies@.len(),
            is_seat_table(seat_view(table@), w.take(i as int)),
        decreases election_result.constituencies.len() - i,
    {
        let winner = resolve_first_past_the_post(&election_result.constituencies[i].results);
        assert(w.take(i + 1) =~= w.take(i as int).push(winner_view(winner)));
        match winner {
            Some(name) => record_winner(&mut table, name, Ghost(w.take(i as int))),
            None => proof {
                lemma_no_winner_no_seat(w.take(i as int), seat_view(table@));
            },
        }
        i = i + 1;
    }
    assert(w.take(i as int) =~= w);
    table
}

/// The seat table when every constituency goes to its alternative-vote
/// winner under `flows`.
pub fn simulate_alternative_vote(election_result: &ElectionResult, flows: &PreferenceFlows) -> (r:
    Vec<(String, usize)>)
    ensures
        is_seat_table(seat_view(r@), av_winners(flows_view(*flows), election_result.constituencies@)),
{
    let ghost w = av_winners(flows_view(*flows), election_result.constituencies@);
    let mut table: Vec<(String, usize)> = Vec::new();
    let mut i: usize = 0;
    assert(seat_view(table@) =~= Seq::<(Seq<char>, usize)>::empty());
    while i < election_result.constituencies.len()
        invariant
            w == av_winners(flows_view(*flows), election_result.constituencies@),
            i <= election_result.constituencies@.len(),
            is_seat_table(seat_view(table@), w.take(i as int)),
        decreases election_result.constituencies.len() - i,
    {
        let winner = resolve_alternative_vote(&election_result.constituencies[i].results, flows);
        assert(w.take(i + 1) =~= w.take(i as int).push(winner_view(winner)));
        match winner {
            Some(name) => record_winner(&mut table, name, Ghost(w.take(i as int))),
            None => proof {
                lemma_no_winner_no_seat(w.take(i as int), seat_view(table@));
            },
        }
        i = i + 1;
    }
    assert(w.take(i as int) =~= w);
    table
}

/// Proportional representation is not modelled yet: no seats are allocated.
pub fn simulate_proportional_representation(election_result: &ElectionResult) -> (r: Vec<
    (String, usize),
>)
    ensures
        r@.len() == 0,
{
    Vec::new()
}

/// Replays an election under `electoral_system` and returns the seats each
/// party wins. The alternative vote needs preference flows; without them the
/// run fails with `MissingPreferenceFlows` before any constituency is
/// resolved.
pub fn simulate_election(
    election_result: &ElectionResult,
    electoral_system: &ElectoralSystem,
    preference_flows: Option<PreferenceFlows>,
) -> (r: Result<Vec<(String, usize)>, SimulationError>)
    ensures
        match *electoral_system {
            ElectoralSystem::FirstPastThePost => match r {
                Ok(t) => is_seat_table(seat_view(t@), fptp_winners(election_result.constituencies@)),
                Err(_) => false,
            },
            ElectoralSystem::ProportionalRepresentation => match r {
                Ok(t) => t@.len() == 0,
                Err(_) => false,
            },
            ElectoralSystem::AlternativeVote => match preference_flows {
                None => r == Err::<Vec<(String, usize)>, SimulationError>(
                    SimulationError::MissingPreferenceFlows,
                ),
                Some(f) => match r {
                    Ok(t) => is_seat_table(
                        seat_view(t@),
                        av_winners(flows_view(f), election_result.constituencies@),
                    ),
                    Err(_) => false,
                },
            },
        },
{
    match electoral_system {
        ElectoralSystem::FirstPastThePost => Ok(simulate_first_past_the_post(election_result)),
        ElectoralSystem::ProportionalRepresentation => Ok(
            simulate_proportional_representation(election_result),
        ),
        ElectoralSystem::AlternativeVote => match preference_flows {
            Some(flows) => Ok(simulate_alternative_vote(election_result, &flows)),
            None => Err(SimulationError::MissingPreferenceFlows),
        },
    }
}

} // verus!
