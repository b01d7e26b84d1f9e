//! General properties of the tally, stated over the model and proved once
//! for all elections and vote sequences.

use vstd::prelude::*;

use crate::model::{
    initial_results, lemma_no_choices_no_valid_votes, lemma_sort_by_count_len,
    lemma_votes_for_le_len, sort_by_count, tally_spec, votes_for, winner_of,
};
use crate::types::{ChoiceResult, ElectionModel, ResultModel, Vote};

verus! {

/// An election with no choices filters every vote out: the tally reports a
/// zero total, an empty results list and no winner, whatever the votes are.
pub proof fn lemma_empty_choices(e: ElectionModel, votes: Seq<Vote>)
    requires
        e.choices.len() == 0,
    ensures
        tally_spec(e, votes).total_votes == 0,
        tally_spec(e, votes).results.len() == 0,
        tally_spec(e, votes).winner is None,
{
    lemma_no_choices_no_valid_votes(e.id, e.choices, votes);
    let pre = initial_results(e.id, e.choices, votes);
    assert(pre.len() == 0);
    lemma_sort_by_count_len(pre);
}

/// A tie between the two leading counts, zero or not, leaves the contest
/// without a winner.
pub proof fn lemma_tie_has_no_winner(e: ElectionModel, votes: Seq<Vote>)
    requires
        ({
            let sorted = sort_by_count(initial_results(e.id, e.choices, votes));
            sorted.len() >= 2 && sorted[0].total_count == sorted[1].total_count
        }),
    ensures
        tally_spec(e, votes).winner is None,
{
}

/// A lone choice that received at least one valid vote is the winner.
pub proof fn lemma_single_choice_winner(e: ElectionModel, votes: Seq<Vote>)
    requires
        e.choices.len() == 1,
        votes.len() <= u32::MAX,
        votes_for(e.id, e.choices[0].id, votes) >= 1,
    ensures
        tally_spec(e, votes).winner == Some(e.choices[0]),
{
    let pre = initial_results(e.id, e.choices, votes);
    lemma_votes_for_le_len(e.id, e.choices[0].id, votes);
    assert(pre.len() == 1);
    assert(pre.drop_last() =~= Seq::<ChoiceResult>::empty());
    let sorted = sort_by_count(pre);
    assert(sort_by_count(Seq::<ChoiceResult>::empty()) =~= Seq::<ChoiceResult>::empty());
    assert(sorted =~= seq![pre[0]]);
    assert(sorted[0].total_count >= 1);
    assert(winner_of(e.choices, sorted) == Some(e.choices[0]));
}

/// The tally is a pure function of the election and the votes: two results
/// computed from the same inputs are identical.
pub proof fn lemma_tally_deterministic(
    e: ElectionModel,
    votes: Seq<Vote>,
    r1: ResultModel,
    r2: ResultModel,
)
    requires
        r1 == tally_spec(e, votes),
        r2 == tally_spec(e, votes),
    ensures
        r1 == r2,
{
}

} // verus!
