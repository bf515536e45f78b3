use chrono::Utc;
use psephulator::presets::{get_preference_flows, setup_two_party_fptp_election};
use psephulator::model::{
    Candidate, Constituency, ConstituencyResult, ElectionResult, ElectoralSystem, Party,
    PreferenceFlows, SimulationError, Timestamp,
};
use psephulator::ranking::name_precedes;
use psephulator::runoff::{eliminate_last_place, resolve_alternative_vote};
use psephulator::simulation::{resolve_first_past_the_post, simulate_election};
use psephulator::totals::national_totals;
use psephulator::transfer::{preference_share, transferred_votes};
use std::collections::HashMap;

fn now() -> Timestamp {
    let t = Utc::now();
    Timestamp { unix_seconds: t.timestamp(), nanoseconds: t.timestamp_subsec_nanos() }
}

fn results(pairs: &[(&str, u32)]) -> Vec<(String, u32)> {
    pairs.iter().map(|(p, v)| (p.to_string(), *v)).collect()
}

fn constituency(name: &str, pairs: &[(&str, u32)]) -> ConstituencyResult {
    let candidates = pairs
        .iter()
        .map(|(p, _)| Candidate {
            name: format!("Candidate of {}", p),
            party: Party { name: p.to_string() },
        })
        .collect();
    ConstituencyResult {
        constituency: Constituency { name: name.to_string(), candidates },
        results: results(pairs),
    }
}

fn election(cs: Vec<ConstituencyResult>) -> ElectionResult {
    ElectionResult { datetime: now(), constituencies: cs, overall_result: Vec::new() }
}

fn flows(tables: &[(&str, &[(&str, u32)])]) -> PreferenceFlows {
    PreferenceFlows {
        tables: tables.iter().map(|(from, shares)| (from.to_string(), results(shares))).collect(),
    }
}

fn seat_map(table: Vec<(String, usize)>) -> HashMap<String, usize> {
    table.into_iter().collect()
}

fn expected(pairs: &[(&str, usize)]) -> HashMap<String, usize> {
    pairs.iter().map(|(p, n)| (p.to_string(), *n)).collect()
}

#[test]
fn test_first_past_the_post_simulation() {
    let party1 = Party { name: String::from("Party A") };
    let party2 = Party { name: String::from("Party B") };

    let candidate1 = Candidate { name: String::from("Alice"), party: party1.clone() };
    let candidate2 = Candidate { name: String::from("Bob"), party: party2.clone() };

    let constituency = Constituency {
        name: String::from("Constituency 1"),
        candidates: vec![candidate1, candidate2],
    };

    let constituency_result = ConstituencyResult {
        constituency: constituency.clone(),
        results: vec![(party1.name.clone(), 2), (party2.name.clone(), 1)],
    };

    let election_result = ElectionResult {
        datetime: now(),
        constituencies: vec![constituency_result],
        overall_result: vec![(party1.name.clone(), 2), (party2.name.clone(), 1)],
    };

    let electoral_system = ElectoralSystem::FirstPastThePost;

    let simulated_result = simulate_election(&election_result, &electoral_system, None).unwrap();

    let expected_result: HashMap<String, usize> = [(party1.name, 1)].iter().cloned().collect();
    assert_eq!(seat_map(simulated_result), expected_result);
}

#[test]
fn scenario_two_parties_fptp_and_av_agree() {
    let r = results(&[("A", 2), ("B", 1)]);
    assert_eq!(resolve_first_past_the_post(&r), Some("A".to_string()));
    assert_eq!(resolve_alternative_vote(&r, &flows(&[])), Some("A".to_string()));
}

#[test]
fn scenario_three_parties_transfer() {
    let f = flows(&[("C", &[("A", 600_000), ("B", 400_000)])]);
    let r = results(&[("A", 10), ("B", 8), ("C", 5)]);
    let mut tallies: Vec<(String, u64)> = r.iter().map(|(p, v)| (p.clone(), *v as u64)).collect();
    let mut eliminated = Vec::new();
    eliminate_last_place(&f, &mut tallies, &mut eliminated);
    assert_eq!(tallies, vec![("A".to_string(), 13), ("B".to_string(), 10)]);
    assert_eq!(eliminated, vec!["C".to_string()]);
    assert_eq!(resolve_alternative_vote(&r, &f), Some("A".to_string()));
}

#[test]
fn tie_goes_to_first_name_in_either_order() {
    let r1 = results(&[("A", 5), ("B", 5)]);
    let r2 = results(&[("B", 5), ("A", 5)]);
    assert_eq!(resolve_first_past_the_post(&r1), Some("A".to_string()));
    assert_eq!(resolve_first_past_the_post(&r2), Some("A".to_string()));
    assert_eq!(resolve_alternative_vote(&r2, &flows(&[])), Some("A".to_string()));
}

#[test]
fn alternative_vote_without_flows_is_an_error() {
    let e = election(vec![constituency("One", &[("A", 3), ("B", 2), ("C", 1)])]);
    let r = simulate_election(&e, &ElectoralSystem::AlternativeVote, None);
    assert_eq!(r, Err(SimulationError::MissingPreferenceFlows));
}

#[test]
fn plurality_seats_sum_to_constituencies() {
    let e = election(vec![
        constituency("One", &[("A", 3), ("B", 2)]),
        constituency("Two", &[("B", 7), ("C", 2), ("A", 1)]),
        constituency("Three", &[("C", 4), ("A", 4)]),
    ]);
    let table = simulate_election(&e, &ElectoralSystem::FirstPastThePost, None).unwrap();
    let total: usize = table.iter().map(|(_, n)| n).sum();
    assert_eq!(total, 3);
    assert_eq!(seat_map(table), expected(&[("A", 2), ("B", 1)]));
}

#[test]
fn plurality_seats_ignore_order_and_repeat() {
    let one = constituency("One", &[("A", 3), ("B", 2)]);
    let two = constituency("Two", &[("B", 7), ("C", 2)]);
    let three = constituency("Three", &[("C", 9), ("B", 4)]);
    let e1 = election(vec![one.clone(), two.clone(), three.clone()]);
    let e2 = election(vec![three, one, two]);
    let s = ElectoralSystem::FirstPastThePost;
    let a = seat_map(simulate_election(&e1, &s, None).unwrap());
    let b = seat_map(simulate_election(&e1, &s, None).unwrap());
    let c = seat_map(simulate_election(&e2, &s, None).unwrap());
    assert_eq!(a, b);
    assert_eq!(a, c);
    assert_eq!(a, expected(&[("A", 1), ("B", 1), ("C", 1)]));
}

#[test]
fn two_party_av_matches_fptp() {
    let e = election(vec![
        constituency("One", &[("A", 3), ("B", 5)]),
        constituency("Two", &[("B", 7), ("C", 9)]),
        constituency("Three", &[("A", 4), ("C", 4)]),
    ]);
    let f = flows(&[("B", &[("A", 1_000_000)]), ("C", &[("B", 1_000_000)])]);
    let fptp = simulate_election(&e, &ElectoralSystem::FirstPastThePost, None).unwrap();
    let av = simulate_election(&e, &ElectoralSystem::AlternativeVote, Some(f)).unwrap();
    assert_eq!(seat_map(fptp.clone()), seat_map(av));
    assert_eq!(seat_map(fptp), expected(&[("A", 1), ("B", 1), ("C", 1)]));
}

#[test]
fn missing_flow_entry_passes_nothing() {
    let f = flows(&[("C", &[("A", 600_000)])]);
    assert_eq!(preference_share(&f, &"C".to_string(), &"B".to_string()), 0);
    assert_eq!(preference_share(&f, &"D".to_string(), &"A".to_string()), 0);
    assert_eq!(preference_share(&f, &"C".to_string(), &"A".to_string()), 600_000);
    let mut tallies = vec![("A".to_string(), 10u64), ("B".to_string(), 8), ("C".to_string(), 5)];
    let mut eliminated = Vec::new();
    eliminate_last_place(&f, &mut tallies, &mut eliminated);
    assert_eq!(tallies, vec![("A".to_string(), 13), ("B".to_string(), 8)]);
}

#[test]
fn stranded_votes_are_spread_over_remaining_parties() {
    let f = flows(&[
        ("D", &[("A", 500_000), ("B", 500_000)]),
        ("C", &[("D", 500_000), ("A", 250_000), ("B", 250_000)]),
    ]);
    let mut tallies = vec![
        ("A".to_string(), 10u64),
        ("B".to_string(), 9),
        ("C".to_string(), 8),
        ("D".to_string(), 3),
    ];
    let mut eliminated = Vec::new();
    eliminate_last_place(&f, &mut tallies, &mut eliminated);
    assert_eq!(
        tallies,
        vec![("A".to_string(), 12), ("B".to_string(), 11), ("C".to_string(), 8)]
    );
    eliminate_last_place(&f, &mut tallies, &mut eliminated);
    assert_eq!(tallies, vec![("A".to_string(), 16), ("B".to_string(), 15)]);
    assert_eq!(eliminated, vec!["D".to_string(), "C".to_string()]);
}

#[test]
fn no_remaining_weight_means_no_spread() {
    let f = flows(&[("B", &[("C", 1_000_000)]), ("C", &[("B", 1_000_000)])]);
    let mut tallies = vec![("A".to_string(), 10u64), ("B".to_string(), 6), ("C".to_string(), 4)];
    let mut eliminated = vec!["X".to_string()];
    eliminate_last_place(&f, &mut tallies, &mut eliminated);
    assert_eq!(tallies, vec![("A".to_string(), 10), ("B".to_string(), 10)]);
    eliminate_last_place(&f, &mut tallies, &mut eliminated);
    assert_eq!(tallies, vec![("A".to_string(), 10)]);
}

#[test]
fn av_elects_after_transfers() {
    let e = election(vec![constituency("One", &[("A", 10), ("B", 8), ("C", 5)])]);
    let f = flows(&[("C", &[("B", 1_000_000)])]);
    let av = simulate_election(&e, &ElectoralSystem::AlternativeVote, Some(f)).unwrap();
    assert_eq!(seat_map(av), expected(&[("B", 1)]));
    let fptp = simulate_election(&e, &ElectoralSystem::FirstPastThePost, None).unwrap();
    assert_eq!(seat_map(fptp), expected(&[("A", 1)]));
}

#[test]
fn empty_constituency_wins_no_seat() {
    let e = election(vec![constituency("Empty", &[]), constituency("One", &[("A", 1)])]);
    let table = simulate_election(&e, &ElectoralSystem::FirstPastThePost, None).unwrap();
    assert_eq!(seat_map(table), expected(&[("A", 1)]));
    assert_eq!(resolve_first_past_the_post(&Vec::new()), None);
    assert_eq!(resolve_alternative_vote(&Vec::new(), &flows(&[])), None);
}

#[test]
fn proportional_representation_allocates_nothing() {
    let e = election(vec![constituency("One", &[("A", 3), ("B", 2)])]);
    let table = simulate_election(&e, &ElectoralSystem::ProportionalRepresentation, None).unwrap();
    assert!(table.is_empty());
}

#[test]
fn transfers_round_half_away_from_zero() {
    assert_eq!(transferred_votes(5, 600_000), 3);
    assert_eq!(transferred_votes(5, 400_000), 2);
    assert_eq!(transferred_votes(5, 500_000), 3);
    assert_eq!(transferred_votes(5, 100_000), 1);
    assert_eq!(transferred_votes(3, 100_000), 0);
    assert_eq!(transferred_votes(u64::MAX, 1_000_000), u64::MAX as u128);
}

#[test]
fn names_order_by_characters() {
    let s = |x: &str| x.to_string();
    assert!(name_precedes(&s("A"), &s("B")));
    assert!(name_precedes(&s("A"), &s("AB")));
    assert!(!name_precedes(&s("B"), &s("A")));
    assert!(!name_precedes(&s("A"), &s("A")));
    assert!(name_precedes(&s(""), &s("A")));
}

#[test]
fn even_flows_from_first_constituency() {
    let e = election(vec![
        constituency("One", &[("A", 1), ("B", 1), ("B", 1)]),
        constituency("Two", &[("A", 1), ("C", 1)]),
    ]);
    let f = get_preference_flows(&e);
    assert_eq!(f.tables.len(), 3);
    assert_eq!(f.tables[0], ("A".to_string(), vec![("B".to_string(), 500_000)]));
    assert_eq!(f.tables[1], ("B".to_string(), vec![("A".to_string(), 500_000)]));
    assert_eq!(f.tables[2], ("C".to_string(), vec![("A".to_string(), 500_000)]));
}

#[test]
fn demo_election_is_won_by_party_a() {
    let t = Timestamp { unix_seconds: 1_720_137_600, nanoseconds: 0 };
    let e = setup_two_party_fptp_election(t);
    assert_eq!(e.datetime, t);
    assert_eq!(e.constituencies.len(), 1);
    assert_eq!(e.constituencies[0].constituency.name, "Constituency 1");
    let table = simulate_election(&e, &ElectoralSystem::FirstPastThePost, None).unwrap();
    assert_eq!(seat_map(table), expected(&[("Party A", 1)]));
}

#[test]
fn national_totals_sum_constituency_results() {
    let e = election(vec![
        constituency("One", &[("A", 3), ("B", 2)]),
        constituency("Two", &[("B", 7), ("C", 2), ("A", 1)]),
        constituency("Empty", &[]),
    ]);
    let totals: HashMap<String, u64> = national_totals(&e).into_iter().collect();
    let want: HashMap<String, u64> =
        [("A", 4u64), ("B", 9), ("C", 2)].iter().map(|(p, n)| (p.to_string(), *n)).collect();
    assert_eq!(totals, want);
    assert!(national_totals(&election(vec![])).is_empty());
}
