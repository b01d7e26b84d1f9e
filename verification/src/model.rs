//! The mathematical model of the tally: spec functions that say, for any
//! election and any sequence of votes, what the engine must compute.

use vstd::prelude::*;
use vstd::seq_lib::{to_multiset_build, to_multiset_insert};

use crate::types::{ChoiceModel, ChoiceResult, ElectionModel, ResultModel, Vote};

verus! {

/// Does some choice in the sequence carry this identifier?
pub open spec fn has_choice(choices: Seq<ChoiceModel>, cid: u32) -> bool {
    exists|i: int| 0 <= i < choices.len() && choices[i].id == cid
}

/// A vote is valid when its contest identifier matches the election and its
/// choice identifier names a defined choice.
pub open spec fn vote_is_valid(eid: u32, choices: Seq<ChoiceModel>, v: Vote) -> bool {
    v.contest_id == eid && has_choice(choices, v.choice_id)
}

/// How many of the votes were cast in contest `eid` for choice `cid`.
pub open spec fn votes_for(eid: u32, cid: u32, votes: Seq<Vote>) -> nat
    decreases votes.len(),
{
    if votes.len() == 0 {
        0
    } else {
        votes_for(eid, cid, votes.drop_last()) + if votes.last().contest_id == eid
            && votes.last().choice_id == cid {
            1nat
        } else {
            0nat
        }
    }
}

/// How many of the votes are valid for this election.
pub open spec fn valid_vote_count(eid: u32, choices: Seq<ChoiceModel>, votes: Seq<Vote>) -> nat
    decreases votes.len(),
{
    if votes.len() == 0 {
        0
    } else {
        valid_vote_count(eid, choices, votes.drop_last()) + if vote_is_valid(
            eid,
            choices,
            votes.last(),
        ) {
            1nat
        } else {
            0nat
        }
    }
}

/// One result entry per choice, in the election's original choice order.
/// Duplicate choice identifiers each get their own entry with the shared
/// count, since counting is keyed by identifier.
pub open spec fn initial_results(
    eid: u32,
    choices: Seq<ChoiceModel>,
    votes: Seq<Vote>,
) -> Seq<ChoiceResult> {
    Seq::new(
        choices.len(),
        |i: int|
            ChoiceResult {
                choice_id: choices[i].id,
                total_count: votes_for(eid, choices[i].id, votes) as u32,
            },
    )
}

/// Insert one entry after every entry whose count is at least as large: the
/// insertion step of a stable descending insertion sort.
pub open spec fn insert_by_count(x: ChoiceResult, s: Seq<ChoiceResult>) -> Seq<ChoiceResult>
    decreases s.len(),
{
    if s.len() == 0 {
        seq![x]
    } else if s[0].total_count >= x.total_count {
        seq![s[0]] + insert_by_count(x, s.drop_first())
    } else {
        seq![x] + s
    }
}

/// Stable insertion sort by vote count, descending: entries with equal counts
/// keep the relative order they had before sorting.
pub open spec fn sort_by_count(s: Seq<ChoiceResult>) -> Seq<ChoiceResult>
    decreases s.len(),
{
    if s.len() == 0 {
        Seq::empty()
    } else {
        insert_by_count(s.last(), sort_by_count(s.drop_last()))
    }
}

/// The first choice, in election order, carrying the given identifier.
pub open spec fn first_choice_with_id(choices: Seq<ChoiceModel>, cid: u32) -> Option<ChoiceModel>
    decreases choices.len(),
{
    if choices.len() == 0 {
        None
    } else if choices[0].id == cid {
        Some(choices[0])
    } else {
        first_choice_with_id(choices.drop_first(), cid)
    }
}

/// The winner rule over the sorted results: no entries, a tie between the two
/// leading counts, or a leading count of zero all yield no winner; otherwise
/// the first choice in election order whose identifier matches the leading
/// entry wins.
pub open spec fn winner_of(
    choices: Seq<ChoiceModel>,
    sorted: Seq<ChoiceResult>,
) -> Option<ChoiceModel> {
    if sorted.len() == 0 {
        None
    } else if sorted.len() > 1 && sorted[0].total_count == sorted[1].total_count {
        None
    } else if sorted[0].total_count == 0 {
        None
    } else {
        first_choice_with_id(choices, sorted[0].choice_id)
    }
}

/// No vote counts more than once: the per-choice count is bounded by the
/// number of votes.
pub proof fn lemma_votes_for_le_len(eid: u32, cid: u32, votes: Seq<Vote>)
    ensures
        votes_for(eid, cid, votes) <= votes.len(),
    decreases votes.len(),
{
    if votes.len() > 0 {
        lemma_votes_for_le_len(eid, cid, votes.drop_last());
    }
}

/// The number of valid votes is bounded by the number of votes.
pub proof fn lemma_valid_vote_count_le_len(eid: u32, choices: Seq<ChoiceModel>, votes: Seq<Vote>)
    ensures
        valid_vote_count(eid, choices, votes) <= votes.len(),
    decreases votes.len(),
{
    if votes.len() > 0 {
        lemma_valid_vote_count_le_len(eid, choices, votes.drop_last());
    }
}

/// With no choices defined, no vote is valid.
pub proof fn lemma_no_choices_no_valid_votes(
    eid: u32,
    choices: Seq<ChoiceModel>,
    votes: Seq<Vote>,
)
    requires
        choices.len() == 0,
    ensures
        valid_vote_count(eid, choices, votes) == 0,
    decreases votes.len(),
{
    if votes.len() > 0 {
        lemma_no_choices_no_valid_votes(eid, choices, votes.drop_last());
    }
}

/// Inserting one entry lengthens the sequence by one.
pub proof fn lemma_insert_by_count_len(x: ChoiceResult, s: Seq<ChoiceResult>)
    ensures
        insert_by_count(x, s).len() == s.len() + 1,
    decreases s.len(),
{
    if s.len() > 0 && s[0].total_count >= x.total_count {
        lemma_insert_by_count_len(x, s.drop_first());
    }
}

/// Sorting keeps the length of the sequence.
pub proof fn lemma_sort_by_count_len(s: Seq<ChoiceResult>)
    ensures
        sort_by_count(s).len() == s.len(),
    decreases s.len(),
{
    if s.len() > 0 {
        lemma_sort_by_count_len(s.drop_last());
        lemma_insert_by_count_len(s.last(), sort_by_count(s.drop_last()));
    }
}

/// Is the sequence ranked by count, largest first?
pub open spec fn ranked_by_count(s: Seq<ChoiceResult>) -> bool {
    forall|a: int, b: int| 0 <= a <= b < s.len() ==> s[a].total_count >= s[b].total_count
}

/// A bound on every count survives the insertion of a bounded entry.
proof fn lemma_insert_by_count_bound(x: ChoiceResult, s: Seq<ChoiceResult>, c: u32)
    requires
        x.total_count <= c,
        forall|k: int| 0 <= k < s.len() ==> s[k].total_count <= c,
    ensures
        forall|k: int|
            0 <= k < insert_by_count(x, s).len() ==> insert_by_count(x, s)[k].total_count <= c,
    decreases s.len(),
{
    if s.len() == 0 {
    } else if s[0].total_count >= x.total_count {
        let t = s.drop_first();
        assert(forall|k: int| 0 <= k < t.len() ==> #[trigger] t[k].total_count <= c) by {
            assert(forall|k: int| 0 <= k < t.len() ==> #[trigger] t[k] == s[k + 1]);
        }
        lemma_insert_by_count_bound(x, t, c);
        assert(forall|k: int|
            0 <= k < insert_by_count(x, s).len() ==> insert_by_count(x, s)[k].total_count
                <= c) by {
            assert(insert_by_count(x, s) == seq![s[0]] + insert_by_count(x, t));
            assert(forall|k: int|
                1 <= k < insert_by_count(x, s).len() ==> insert_by_count(x, s)[k]
                    == #[trigger] insert_by_count(x, t)[k - 1]);
        }
    } else {
    }
}

/// Inserting by count into a ranked sequence keeps it ranked.
proof fn lemma_insert_by_count_ranked(x: ChoiceResult, s: Seq<ChoiceResult>)
    requires
        ranked_by_count(s),
    ensures
        ranked_by_count(insert_by_count(x, s)),
    decreases s.len(),
{
    if s.len() == 0 {
    } else if s[0].total_count >= x.total_count {
        let t = s.drop_first();
        assert(forall|k: int| 0 <= k < t.len() ==> #[trigger] t[k] == s[k + 1]);
        assert(ranked_by_count(t));
        lemma_insert_by_count_ranked(x, t);
        assert(forall|k: int| 0 <= k < t.len() ==> #[trigger] t[k].total_count
            <= s[0].total_count);
        lemma_insert_by_count_bound(x, t, s[0].total_count);
        let r = insert_by_count(x, s);
        assert(r == seq![s[0]] + insert_by_count(x, t));
        assert(forall|k: int| 1 <= k < r.len() ==> r[k] == #[trigger] insert_by_count(x, t)[k
            - 1]);
        assert(ranked_by_count(r));
    } else {
        let r = insert_by_count(x, s);
        assert(r == seq![x] + s);
        assert(forall|k: int| 1 <= k < r.len() ==> r[k] == #[trigger] s[k - 1]);
        assert(forall|k: int| 0 <= k < s.len() ==> #[trigger] s[k].total_count <= s[0].total_count);
        assert(ranked_by_count(r));
    }
}

/// The sorted results are ranked by count, largest first.
pub proof fn lemma_sort_by_count_ranked(s: Seq<ChoiceResult>)
    ensures
        ranked_by_count(sort_by_count(s)),
    decreases s.len(),
{
    if s.len() > 0 {
        lemma_sort_by_count_ranked(s.drop_last());
        lemma_insert_by_count_ranked(s.last(), sort_by_count(s.drop_last()));
    }
}

/// Inserting by count adds exactly the inserted entry to the contents.
proof fn lemma_insert_by_count_multiset(x: ChoiceResult, s: Seq<ChoiceResult>)
    ensures
        insert_by_count(x, s).to_multiset() == s.to_multiset().insert(x),
    decreases s.len(),
{
    broadcast use vstd::multiset::group_multiset_axioms;

    if s.len() == 0 {
        assert(s =~= Seq::<ChoiceResult>::empty());
        assert(seq![x] =~= s.push(x));
        to_multiset_build(s, x);
    } else if s[0].total_count >= x.total_count {
        let t = s.drop_first();
        lemma_insert_by_count_multiset(x, t);
        assert(seq![s[0]] + insert_by_count(x, t) =~= insert_by_count(x, t).insert(0, s[0]));
        to_multiset_insert(insert_by_count(x, t), 0, s[0]);
        assert(s =~= t.insert(0, s[0]));
        to_multiset_insert(t, 0, s[0]);
        assert(t.to_multiset().insert(x).insert(s[0]) =~= t.to_multiset().insert(s[0]).insert(
            x,
        ));
    } else {
        assert(seq![x] + s =~= s.insert(0, x));
        to_multiset_insert(s, 0, x);
    }
}

/// Sorting rearranges the result entries and nothing more: the contents are
/// unchanged.
pub proof fn lemma_sort_by_count_multiset(s: Seq<ChoiceResult>)
    ensures
        sort_by_count(s).to_multiset() == s.to_multiset(),
    decreases s.len(),
{
    broadcast use vstd::multiset::group_multiset_axioms;

    if s.len() > 0 {
        lemma_sort_by_count_multiset(s.drop_last());
        lemma_insert_by_count_multiset(s.last(), sort_by_count(s.drop_last()));
        assert(sort_by_count(s) == insert_by_count(s.last(), sort_by_count(s.drop_last())));
        assert(sort_by_count(s).to_multiset() == s.drop_last().to_multiset().insert(s.last()));
        assert(s.drop_last().push(s.last()) =~= s);
        to_multiset_build(s.drop_last(), s.last());
        assert(s.to_multiset() == s.drop_last().to_multiset().insert(s.last()));
    } else {
        assert(s =~= Seq::<ChoiceResult>::empty());
        assert(sort_by_count(s) == Seq::<ChoiceResult>::empty());
    }
}

/// Where `j` is the first position whose count falls below `x`'s (or the end
/// of the sequence), inserting by count splits the sequence exactly there.
pub proof fn lemma_insert_by_count_at(x: ChoiceResult, s: Seq<ChoiceResult>, j: int)
    requires
        0 <= j <= s.len(),
        forall|k: int| 0 <= k < j ==> s[k].total_count >= x.total_count,
        j < s.len() ==> s[j].total_count < x.total_count,
    ensures
        insert_by_count(x, s) == s.take(j) + seq![x] + s.skip(j),
    decreases j,
{
    if j == 0 {
        if s.len() == 0 {
            assert(insert_by_count(x, s) == seq![x]);
            assert(s.take(0) + seq![x] + s.skip(0) =~= seq![x]);
        } else {
            assert(s[0].total_count < x.total_count);
            assert(insert_by_count(x, s) == seq![x] + s);
            assert(s.take(0) + seq![x] + s.skip(0) =~= seq![x] + s);
        }
    } else {
        assert(s[0].total_count >= x.total_count);
        let t = s.drop_first();
        assert(forall|k: int| 0 <= k < j - 1 ==> #[trigger] t[k].total_count >= x.total_count) by {
            assert(forall|k: int| 0 <= k < j - 1 ==> #[trigger] t[k] == s[k + 1]);
        }
        assert(j - 1 < t.len() ==> t[j - 1].total_count < x.total_count);
        lemma_insert_by_count_at(x, t, j - 1);
        assert(insert_by_count(x, s) == seq![s[0]] + insert_by_count(x, t));
        assert(seq![s[0]] + (t.take(j - 1) + seq![x] + t.skip(j - 1)) =~= s.take(j) + seq![x]
            + s.skip(j));
    }
}

/// Skipping a prefix free of the sought identifier does not change which
/// choice is found first.
pub proof fn lemma_first_choice_skip(choices: Seq<ChoiceModel>, cid: u32, i: int)
    requires
        0 <= i <= choices.len(),
        forall|k: int| 0 <= k < i ==> choices[k].id != cid,
    ensures
        first_choice_with_id(choices, cid) == first_choice_with_id(choices.skip(i), cid),
    decreases i,
{
    if i > 0 {
        let t = choices.drop_first();
        assert(choices[0].id != cid);
        assert(first_choice_with_id(choices, cid) == first_choice_with_id(t, cid));
        assert(forall|k: int| 0 <= k < i - 1 ==> #[trigger] t[k].id != cid) by {
            assert(forall|k: int| 0 <= k < i - 1 ==> #[trigger] t[k] == choices[k + 1]);
        }
        lemma_first_choice_skip(t, cid, i - 1);
        assert(t.skip(i - 1) =~= choices.skip(i));
    } else {
        assert(choices.skip(0) =~= choices);
    }
}

/// The whole tally as one mathematical function of the inputs.
pub open spec fn tally_spec(e: ElectionModel, votes: Seq<Vote>) -> ResultModel {
    let sorted = sort_by_count(initial_results(e.id, e.choices, votes));
    ResultModel {
        contest_id: e.id,
        total_votes: valid_vote_count(e.id, e.choices, votes) as u32,
        results: sorted,
        winner: winner_of(e.choices, sorted),
    }
}

} // verus!
