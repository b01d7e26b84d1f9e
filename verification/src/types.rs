//! The data the tally engine works on, together with its mathematical view.
//!
//! Each executable type with a `String` or `Vec` field has a model struct
//! whose fields are `Seq`s, reached through `deep_view`; contracts are stated
//! over those models.

use vstd::prelude::*;

verus! {

/// An election: its identifier, a free-text description, and the choices
/// voters may pick, in a fixed order. Choice identifiers are not required to
/// be unique; duplicates are kept as distinct entries.
#[derive(Debug)]
pub struct Election {
    pub id: u32,
    pub description: String,
    pub choices: Vec<Choice>,
}

/// One selectable option within an election.
#[derive(Debug, PartialEq, Eq)]
pub struct Choice {
    pub id: u32,
    pub text: String,
}

/// A cast vote: the contest it is meant for and the choice it names.
/// Votes are untrusted input; nothing guarantees they reference a real
/// election or choice.
#[derive(Debug, Clone, Copy, PartialEq, Eq, Structural)]
pub struct Vote {
    pub contest_id: u32,
    pub choice_id: u32,
}

/// The outcome of a tally: the contest, the number of valid votes, one entry
/// per choice ranked by count, and the winning choice if there is one.
#[derive(Debug, PartialEq, Eq)]
pub struct ResultData {
    pub contest_id: u32,
    pub total_votes: u32,
    pub results: Vec<ChoiceResult>,
    pub winner: Option<Choice>,
}

/// The number of valid votes one choice identifier received.
#[derive(Debug, Clone, Copy, PartialEq, Eq, Structural)]
pub struct ChoiceResult {
    pub choice_id: u32,
    pub total_count: u32,
}

/// Mathematical view of a [`Choice`].
pub struct ChoiceModel {
    pub id: u32,
    pub text: Seq<char>,
}

/// Mathematical view of an [`Election`].
pub struct ElectionModel {
    pub id: u32,
    pub description: Seq<char>,
    pub choices: Seq<ChoiceModel>,
}

/// Mathematical view of a [`ResultData`].
pub struct ResultModel {
    pub contest_id: u32,
    pub total_votes: u32,
    pub results: Seq<ChoiceResult>,
    pub winner: Option<ChoiceModel>,
}

impl View for Choice {
    type V = ChoiceModel;

    open spec fn view(&self) -> ChoiceModel {
        ChoiceModel { id: self.id, text: self.text@ }
    }
}

impl DeepView for Choice {
    type V = ChoiceModel;

    open spec fn deep_view(&self) -> ChoiceModel {
        self@
    }
}

impl DeepView for Vote {
    type V = Vote;

    open spec fn deep_view(&self) -> Vote {
        *self
    }
}

impl DeepView for ChoiceResult {
    type V = ChoiceResult;

    open spec fn deep_view(&self) -> ChoiceResult {
        *self
    }
}

impl DeepView for Election {
    type V = ElectionModel;

    open spec fn deep_view(&self) -> ElectionModel {
        ElectionModel {
            id: self.id,
            description: self.description@,
            choices: self.choices.deep_view(),
        }
    }
}

impl DeepView for ResultData {
    type V = ResultModel;

    open spec fn deep_view(&self) -> ResultModel {
        ResultModel {
            contest_id: self.contest_id,
            total_votes: self.total_votes,
            results: self.results.deep_view(),
            winner: self.winner.deep_view(),
        }
    }
}

} // verus!
