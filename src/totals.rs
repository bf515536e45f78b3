//! National vote totals, recomputed from the constituency results.
use vstd::prelude::*;
use crate::model::{ConstituencyResult, ElectionResult};
use crate::transfer::{capped, sat_add};

verus! {

/// Every (party, votes) entry of the constituencies, in order.
pub open spec fn all_entries(cs: Seq<ConstituencyResult>) -> Seq<(Seq<char>, u32)>
    decreases cs.len(),
{
    if cs.len() == 0 {
        Seq::empty()
    } else {
        all_entries(cs.drop_last()) + cs.last().results@.map_values(
            |e: (String, u32)| (e.0@, e.1),
        )
    }
}

/// The votes that the entries `e` give party `p`.
pub open spec fn party_votes(e: Seq<(Seq<char>, u32)>, p: Seq<char>) -> nat
    decreases e.len(),
{
    if e.len() == 0 {
        0
    } else {
        party_votes(e.drop_last(), p) + if e.last().0 == p {
            e.last().1 as nat
        } else {
            0nat
        }
    }
}

/// The parties that the entries `e` name.
pub open spec fn parties_in(e: Seq<(Seq<char>, u32)>) -> Seq<Seq<char>> {
    e.map_values(|x: (Seq<char>, u32)| x.0)
}

/// `r` lists each party named in `e` once, with its votes (held at the
/// largest `u64`), and no other party.
pub open spec fn is_vote_table(r: Seq<(Seq<char>, u64)>, e: Seq<(Seq<char>, u32)>) -> bool {
    &&& forall|i: int, j: int| 0 <= i < j < r.len() ==> r[i].0 != r[j].0
    &&& forall|i: int|
        0 <= i < r.len() ==> r[i].1 == capped(party_votes(e, #[trigger] r[i].0) as int)
            && parties_in(e).contains(r[i].0)
    &&& forall|p: Seq<char>|
        #[trigger] parties_in(e).contains(p) ==> exists|i: int| 0 <= i < r.len() && r[i].0 == p
}

/// A vote table as plain values.
pub open spec fn vote_view(r: Seq<(String, u64)>) -> Seq<(Seq<char>, u64)> {
    r.map_values(|x: (String, u64)| (x.0@, x.1))
}

proof fn lemma_parties_in_push(e: Seq<(Seq<char>, u32)>, x: (Seq<char>, u32), p: Seq<char>)
    ensures
        parties_in(e.push(x)).contains(p) == (parties_in(e).contains(p) || x.0 == p),
{
    let a = parties_in(e);
    let b = parties_in(e.push(x));
    assert(b =~= a.push(x.0));
    if b.contains(p) {
        let i = choose|i: int| 0 <= i < b.len() && b[i] == p;
        if i < a.len() {
            assert(a[i] == p);
        }
    }
    if a.contains(p) {
        let i = choose|i: int| 0 <= i < a.len() && a[i] == p;
        assert(b[i] == p);
    }
    if x.0 == p {
        assert(b[a.len() as int] == p);
    }
}

/// Adds one more entry, `votes` for `name`, to `table`.
fn record_votes(
    table: &mut Vec<(String, u64)>,
    name: String,
    votes: u32,
    Ghost(e): Ghost<Seq<(Seq<char>, u32)>>,
)
    requires
        is_vote_table(vote_view(old(table)@), e),
    ensures
        is_vote_table(vote_view(final(table)@), e.push((name@, votes))),
{
    let ghost x = (name@, votes);
    let ghost e2 = e.push(x);
    assert(e2.drop_last() =~= e);
    assert forall|p: Seq<char>| p != name@ implies #[trigger] party_votes(e2, p) == party_votes(
        e,
        p,
    ) by {}
    assert forall|p: Seq<char>| #[trigger] parties_in(e2).contains(p) == (parties_in(e).contains(p)
        || p == name@) by {
        lemma_parties_in_push(e, x, p);
    }
    let ghost t = vote_view(table@);
    let mut j: usize = 0;
    while j < table.len() && !(table[j].0 == name)
        invariant
            t == vote_view(table@),
            j <= table@.len(),
            forall|i: int| 0 <= i < j ==> t[i].0 != name@,
        decreases table.len() - j,
    {
        j = j + 1;
    }
    if j < table.len() {
        assert(t[j as int].0 == name@);
        let total = if table[j].1 > u64::MAX - votes as u64 {
            u64::MAX
        } else {
            table[j].1 + votes as u64
        };
        assert(total == sat_add(t[j as int].1, votes as int));
        table.set(j, (name, total));
        let ghost n = vote_view(table@);
        assert(n =~= t.update(j as int, (name@, total)));
        assert forall|i: int| 0 <= i < n.len() implies n[i].1 == capped(
            party_votes(e2, #[trigger] n[i].0) as int,
        ) && parties_in(e2).contains(n[i].0) by {
            if i != j {
                assert(t[i].0 != t[j as int].0);
            }
        }
        assert forall|p: Seq<char>| #[trigger] parties_in(e2).contains(p) implies exists|i: int|
            0 <= i < n.len() && n[i].0 == p by {
            if p != name@ {
                let i = choose|i: int| 0 <= i < t.len() && t[i].0 == p;
                assert(n[i].0 == p);
            } else {
                assert(n[j as int].0 == p);
            }
        }
    } else {
        assert(!parties_in(e).contains(name@));
        assert(party_votes(e, name@) == 0) by {
            lemma_absent_party_has_no_votes(e, name@);
        }
        table.push((name, votes as u64));
        let ghost n = vote_view(table@);
        assert(n =~= t.push((name@, votes as u64)));
        assert forall|i: int| 0 <= i < n.len() implies n[i].1 == capped(
            party_votes(e2, #[trigger] n[i].0) as int,
        ) && parties_in(e2).contains(n[i].0) by {
            if i < t.len() {
                assert(t[i].0 != name@);
            }
        }
        assert forall|p: Seq<char>| #[trigger] parties_in(e2).contains(p) implies exists|i: int|
            0 <= i < n.len() && n[i].0 == p by {
            if p != name@ {
                let i = choose|i: int| 0 <= i < t.len() && t[i].0 == p;
                assert(n[i].0 == p);
            } else {
                assert(n[t.len() as int].0 == p);
            }
        }
    }
}

proof fn lemma_absent_party_has_no_votes(e: Seq<(Seq<char>, u32)>, p: Seq<char>)
    requires
        !parties_in(e).contains(p),
    ensures
        party_votes(e, p) == 0,
    decreases e.len(),
{
    if e.len() > 0 {
        let s = e.drop_last();
        assert(parties_in(e)[e.len() - 1] == e.last().0);
        assert(!parties_in(s).contains(p)) by {
            if parties_in(s).contains(p) {
                let i = choose|i: int| 0 <= i < s.len() && parties_in(s)[i] == p;
                assert(parties_in(e)[i] == p);
            }
        }
        lemma_absent_party_has_no_votes(s, p);
    }
}

/// Each party's national vote, summed over the constituency results rather
/// than read from the election's own aggregate. A total beyond the largest
/// `u64` is held there.
pub fn national_totals(election_result: &ElectionResult) -> (r: Vec<(String, u64)>)
    ensures
        is_vote_table(vote_view(r@), all_entries(election_result.constituencies@)),
{
    let ghost cs = election_result.constituencies@;
    let mut table: Vec<(String, u64)> = Vec::new();
    let mut i: usize = 0;
    assert(vote_view(table@) =~= Seq::<(Seq<char>, u64)>::empty());
    assert(cs.take(0) =~= Seq::<ConstituencyResult>::empty());
    assert forall|p: Seq<char>| !(#[trigger] parties_in(all_entries(cs.take(0))).contains(p)) by {}
    while i < election_result.constituencies.len()
        invariant
            cs == election_result.constituencies@,
            i <= cs.len(),
            is_vote_table(vote_view(table@), all_entries(cs.take(i as int))),
        decreases election_result.constituencies.len() - i,
    {
        let results = &election_result.constituencies[i].results;
        let ghost base = all_entries(cs.take(i as int));
        let ghost rv = results@.map_values(|e: (String, u32)| (e.0@, e.1));
        let mut j: usize = 0;
        assert(base + rv.take(0) =~= base);
        while j < results.len()
            invariant
                rv == results@.map_values(|e: (String, u32)| (e.0@, e.1)),
                j <= results@.len(),
                is_vote_table(vote_view(table@), base + rv.take(j as int)),
            decreases results.len() - j,
        {
            record_votes(&mut table, results[j].0.clone(), results[j].1, Ghost(base + rv.take(j as int)));
            assert(base + rv.take(j + 1) =~= (base + rv.take(j as int)).push(rv[j as int]));
            j = j + 1;
        }
        assert(cs.take(i + 1).drop_last() =~= cs.take(i as int));
        assert(rv.take(j as int) =~= rv);
        assert(all_entries(cs.take(i + 1)) == base + rv);
        i = i + 1;
    }
    assert(cs.take(i as int) =~= cs);
    table
}

} // verus!
