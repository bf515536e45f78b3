//! The election data: parties, candidates, constituencies and their results.
use vstd::prelude::*;

verus! {

/// A party, identified by its name alone.
#[derive(Clone, Debug, PartialEq, Eq, Hash)]
pub struct Party {
    pub name: String,
}

/// A candidate standing for a party.
#[derive(Clone, Debug)]
pub struct Candidate {
    pub name: String,
    pub party: Party,
}

/// A single-member constituency and the candidates standing in it.
#[derive(Clone, Debug)]
pub struct Constituency {
    pub name: String,
    pub candidates: Vec<Candidate>,
}

/// The votes cast in one constituency, as (party name, votes) pairs.
///
/// The pairs play the part of a mapping: a party name appears once.
#[derive(Clone, Debug)]
pub struct ConstituencyResult {
    pub constituency: Constituency,
    pub results: Vec<(String, u32)>,
}

/// An instant in UTC: whole seconds since the Unix epoch and the nanoseconds
/// past that second.
#[derive(Clone, Copy, Debug, PartialEq, Eq)]
pub struct Timestamp {
    pub unix_seconds: i64,
    pub nanoseconds: u32,
}

/// The results of a whole election.
#[derive(Clone, Debug)]
pub struct ElectionResult {
    pub datetime: Timestamp,
    pub constituencies: Vec<ConstituencyResult>,
    pub overall_result: Vec<(String, u32)>,
}

/// The electoral systems that a result can be replayed under.
#[derive(Clone, Copy, Debug, PartialEq, Eq)]
pub enum ElectoralSystem {
    FirstPastThePost,
    ProportionalRepresentation,
    AlternativeVote,
}

/// One millionth of a voter: the unit in which transfer shares are given.
pub const SHARE_SCALE: u32 = 1_000_000;

/// How the votes of an eliminated party pass to the others.
///
/// Each table names the eliminated party and lists (target party, share)
/// pairs, the share in millionths (`SHARE_SCALE` is the whole). Shares need
/// not sum to the whole; what is not listed is lost.
#[derive(Clone, Debug)]
pub struct PreferenceFlows {
    pub tables: Vec<(String, Vec<(String, u32)>)>,
}

/// Why a simulation could not be run.
#[derive(Clone, Copy, Debug, PartialEq, Eq)]
pub enum SimulationError {
    /// The alternative vote was asked for without preference flows.
    MissingPreferenceFlows,
}

/// A vote tally: a party name and its current number of votes.
pub type Tally = (Seq<char>, u64);

/// The tallies of a constituency's results.
pub open spec fn tallies_of(results: Seq<(String, u32)>) -> Seq<Tally> {
    results.map_values(|e: (String, u32)| (e.0@, e.1 as u64))
}

/// The tallies held in a vector of (name, votes) pairs.
pub open spec fn tally_view(t: Seq<(String, u64)>) -> Seq<Tally> {
    t.map_values(|e: (String, u64)| (e.0@, e.1))
}

/// The flow tables as plain values.
pub open spec fn flows_view(f: PreferenceFlows) -> Seq<(Seq<char>, Seq<(Seq<char>, u32)>)> {
    f.tables@.map_values(
        |t: (String, Vec<(String, u32)>)| (t.0@, share_view(t.1@)),
    )
}

/// The (target, share) pairs of one table as plain values.
pub open spec fn share_view(t: Seq<(String, u32)>) -> Seq<(Seq<char>, u32)> {
    t.map_values(|e: (String, u32)| (e.0@, e.1))
}

/// Copies a constituency's results into tallies.
pub fn tallies_from_results(results: &Vec<(String, u32)>) -> (r: Vec<(String, u64)>)
    ensures
        tally_view(r@) == tallies_of(results@),
{
    let mut r: Vec<(String, u64)> = Vec::new();
    let mut i: usize = 0;
    while i < results.len()
        invariant
            i <= results.len(),
            tally_view(r@) == tallies_of(results@.take(i as int)),
        decreases results.len() - i,
    {
        let ghost before = r@;
        let name = results[i].0.clone();
        r.push((name, results[i].1 as u64));
        assert(tally_view(r@) =~= tally_view(before).push(tallies_of(results@)[i as int]));
        assert(results@.take(i + 1) =~= results@.take(i as int).push(results@[i as int]));
        i = i + 1;
        assert(tallies_of(results@.take(i as int)) =~= tally_view(r@));
    }
    assert(results@.take(i as int) =~= results@);
    r
}

} // verus!
