//! The tally engine: executable code that counts valid votes, ranks the
//! choices, and decides the winner, proved against the model in
//! [`crate::model`].

use vstd::prelude::*;

use crate::model::{
    first_choice_with_id, has_choice, initial_results, lemma_first_choice_skip,
    lemma_insert_by_count_at, lemma_sort_by_count_len, lemma_sort_by_count_multiset,
    lemma_sort_by_count_ranked, lemma_valid_vote_count_le_len, lemma_votes_for_le_len,
    ranked_by_count, sort_by_count, tally_spec, valid_vote_count, votes_for, winner_of,
};
use crate::types::{Choice, ChoiceModel, ChoiceResult, Election, ResultData, Vote};

verus! {

/// Count the votes cast in contest `eid` for choice `cid`.
fn count_votes_for(eid: u32, cid: u32, votes: &[Vote]) -> (n: u32)
    requires
        votes@.len() <= u32::MAX,
    ensures
        n == votes_for(eid, cid, votes@),
{
    let mut n: u32 = 0;
    let mut i: usize = 0;
    while i < votes.len()
        invariant
            i <= votes@.len() <= u32::MAX,
            n == votes_for(eid, cid, votes@.take(i as int)),
        decreases votes@.len() - i,
    {
        proof {
            lemma_votes_for_le_len(eid, cid, votes@.take(i as int));
            assert(votes@.take(i as int + 1).drop_last() =~= votes@.take(i as int));
            assert(votes@.take(i as int + 1).last() == votes@[i as int]);
        }
        if votes[i].contest_id == eid && votes[i].choice_id == cid {
            n = n + 1;
        }
        i = i + 1;
    }
    proof {
        assert(votes@.take(votes@.len() as int) =~= votes@);
    }
    n
}

/// Does the election define a choice with this identifier?
fn contains_choice(choices: &Vec<Choice>, cid: u32) -> (b: bool)
    ensures
        b == has_choice(choices.deep_view(), cid),
{
    let ghost cs = choices.deep_view();
    let mut i: usize = 0;
    while i < choices.len()
        invariant
            cs == choices.deep_view(),
            i <= choices@.len(),
            cs.len() == choices@.len(),
            forall|k: int| 0 <= k < i ==> cs[k].id != cid,
        decreases choices@.len() - i,
    {
        if choices[i].id == cid {
            proof {
                assert(cs[i as int].id == cid);
            }
            return true;
        }
        i = i + 1;
    }
    false
}

/// Count the valid votes: those whose contest matches the election and whose
/// choice identifier names a defined choice.
fn count_valid_votes(election: &Election, votes: &[Vote]) -> (n: u32)
    requires
        votes@.len() <= u32::MAX,
    ensures
        n == valid_vote_count(election.id, election.choices.deep_view(), votes@),
{
    let ghost cs = election.choices.deep_view();
    let mut n: u32 = 0;
    let mut i: usize = 0;
    while i < votes.len()
        invariant
            cs == election.choices.deep_view(),
            i <= votes@.len() <= u32::MAX,
            n == valid_vote_count(election.id, cs, votes@.take(i as int)),
        decreases votes@.len() - i,
    {
        proof {
            lemma_valid_vote_count_le_len(election.id, cs, votes@.take(i as int));
            assert(votes@.take(i as int + 1).drop_last() =~= votes@.take(i as int));
            assert(votes@.take(i as int + 1).last() == votes@[i as int]);
        }
        if votes[i].contest_id == election.id && contains_choice(&election.choices, votes[i].choice_id) {
            n = n + 1;
        }
        i = i + 1;
    }
    proof {
        assert(votes@.take(votes@.len() as int) =~= votes@);
    }
    n
}

/// Build one result entry per choice, in the election's choice order, each
/// paired with its accumulated count.
fn build_initial_results(election: &Election, votes: &[Vote]) -> (res: Vec<ChoiceResult>)
    requires
        votes@.len() <= u32::MAX,
    ensures
        res@ == initial_results(election.id, election.choices.deep_view(), votes@),
{
    let ghost cs = election.choices.deep_view();
    let mut res: Vec<ChoiceResult> = Vec::new();
    let mut i: usize = 0;
    while i < election.choices.len()
        invariant
            votes@.len() <= u32::MAX,
            cs == election.choices.deep_view(),
            i <= election.choices@.len(),
            cs.len() == election.choices@.len(),
            res@.len() == i,
            forall|k: int|
                0 <= k < i ==> res@[k] == #[trigger] initial_results(election.id, cs, votes@)[k],
        decreases election.choices@.len() - i,
    {
        let c = &election.choices[i];
        let n = count_votes_for(election.id, c.id, votes);
        proof {
            lemma_votes_for_le_len(election.id, c.id, votes@);
            assert(cs[i as int].id == c.id);
        }
        res.push(ChoiceResult { choice_id: c.id, total_count: n });
        i = i + 1;
    }
    proof {
        assert(res@ =~= initial_results(election.id, cs, votes@));
    }
    res
}

/// Sort the result entries by count, descending, with a stable insertion
/// sort: each entry is inserted after every already-placed entry whose count
/// is at least as large, so equal counts keep their original relative order.
fn sort_results(input: Vec<ChoiceResult>) -> (res: Vec<ChoiceResult>)
    ensures
        res@ == sort_by_count(input@),
{
    let mut res: Vec<ChoiceResult> = Vec::new();
    let mut i: usize = 0;
    while i < input.len()
        invariant
            i <= input@.len(),
            res@.len() == i,
            res@ == sort_by_count(input@.take(i as int)),
        decreases input@.len() - i,
    {
        let x = input[i];
        let mut j: usize = 0;
        while j < res.len() && res[j].total_count >= x.total_count
            invariant
                j <= res@.len(),
                forall|k: int| 0 <= k < j ==> res@[k].total_count >= x.total_count,
            decreases res@.len() - j,
        {
            j = j + 1;
        }
        let ghost prev = res@;
        proof {
            lemma_insert_by_count_at(x, prev, j as int);
        }
        res.insert(j, x);
        proof {
            assert(res@ =~= prev.take(j as int) + seq![x] + prev.skip(j as int));
            assert(input@.take(i as int + 1).drop_last() =~= input@.take(i as int));
            assert(input@.take(i as int + 1).last() == input@[i as int]);
            assert(res@ == sort_by_count(input@.take(i as int + 1)));
        }
        i = i + 1;
    }
    proof {
        assert(input@.take(input@.len() as int) =~= input@);
    }
    res
}

/// Find the winning choice for the sorted results: none when there are no
/// entries, when the two leading counts tie, or when the leading count is
/// zero; otherwise the first choice in election order matching the leading
/// entry's identifier.
fn find_winner(election: &Election, sorted: &Vec<ChoiceResult>) -> (w: Option<Choice>)
    ensures
        w.deep_view() == winner_of(election.choices.deep_view(), sorted@),
{
    let ghost cs = election.choices.deep_view();
    if sorted.len() == 0 {
        return None;
    }
    if sorted.len() > 1 {
        if sorted[0].total_count == sorted[1].total_count {
            return None;
        }
    }
    if sorted[0].total_count == 0 {
        return None;
    }
    let cid = sorted[0].choice_id;
    let mut i: usize = 0;
    while i < election.choices.len()
        invariant
            cs == election.choices.deep_view(),
            i <= election.choices@.len(),
            cs.len() == election.choices@.len(),
            forall|k: int| 0 <= k < i ==> cs[k].id != cid,
            sorted@.len() >= 1,
            cid == sorted@[0].choice_id,
            sorted@[0].total_count != 0,
            sorted@.len() > 1 ==> sorted@[0].total_count != sorted@[1].total_count,
            winner_of(cs, sorted@) == first_choice_with_id(cs, cid),
        decreases election.choices@.len() - i,
    {
        if election.choices[i].id == cid {
            proof {
                lemma_first_choice_skip(cs, cid, i as int);
                assert(cs.skip(i as int)[0] == cs[i as int]);
                assert(first_choice_with_id(cs, cid) == Some(cs[i as int]));
            }
            let c = &election.choices[i];
            let w = Some(Choice { id: c.id, text: c.text.clone() });
            proof {
                assert(cs[i as int] == ChoiceModel { id: c.id, text: c.text@ });
                assert(w.deep_view() == Some(cs[i as int]));
            }
            return w;
        }
        i = i + 1;
    }
    proof {
        lemma_first_choice_skip(cs, cid, cs.len() as int);
        assert(cs.skip(cs.len() as int) =~= Seq::<ChoiceModel>::empty());
        assert(first_choice_with_id(cs, cid) is None);
    }
    None
}

/// Tally the votes for a given election, returning the results.
///
/// Votes are filtered to those matching the election's identifier and naming
/// a defined choice; every choice gets a result entry even with zero votes;
/// the entries are ranked by count with a stable descending sort; a tie
/// between the two leading counts, or a leading count of zero, leaves the
/// contest without a winner. The number of votes must fit the 32-bit
/// counters that hold the counts.
pub fn tally_votes(election: &Election, votes: &[Vote]) -> (result: ResultData)
    requires
        votes@.len() <= u32::MAX,
    ensures
        result.deep_view() == tally_spec(election.deep_view(), votes@),
        result.contest_id == election.id,
        result.total_votes == valid_vote_count(election.id, election.choices.deep_view(), votes@),
        result.results@.len() == election.choices@.len(),
        ranked_by_count(result.results@),
        result.results@.to_multiset() == initial_results(
            election.id,
            election.choices.deep_view(),
            votes@,
        ).to_multiset(),
{
    let ghost e = election.deep_view();
    let total_votes = count_valid_votes(election, votes);
    let initial = build_initial_results(election, votes);
    proof {
        lemma_sort_by_count_len(initial@);
        lemma_sort_by_count_ranked(initial@);
        lemma_sort_by_count_multiset(initial@);
    }
    let results = sort_results(initial);
    let winner = find_winner(election, &results);
    let result = ResultData { contest_id: election.id, total_votes, results, winner };
    proof {
        lemma_valid_vote_count_le_len(e.id, e.choices, votes@);
        assert(result.results.deep_view() =~= result.results@);
        assert(result.deep_view() == tally_spec(e, votes@));
    }
    result
}

} // verus!
