//! Example settings for use in documentation which demonstrates how a setting changes from
//! one version to the next: a setting of scores whose name has changed.
use vstd::prelude::*;

verus! {

/// The first version of the setting: the scores, each with the name of who has it.
#[derive(Debug, Default)]
pub struct ScoreV1 {
    pub scores: Vec<(String, i64)>,
}

/// The second version of the setting, in which the scores are called `all_scores`.
#[derive(Debug, Default)]
pub struct ScoreV2 {
    pub all_scores: Vec<(String, i64)>,
}

impl ScoreV1 {
    /// The version of this model.
    pub fn get_version() -> (version: &'static str)
        ensures
            version@ == "v1"@,
    {
        "v1"
    }

    /// Migrates the setting forward: the scores stay as they are, under their new name.
    pub fn migrate_forward(self) -> (next: ScoreV2)
        ensures
            next.all_scores == self.scores,
    {
        ScoreV2 { all_scores: self.scores }
    }
}

impl ScoreV2 {
    /// The version of this model.
    pub fn get_version() -> (version: &'static str)
        ensures
            version@ == "v2"@,
    {
        "v2"
    }

    /// Migrates the setting backward: the scores stay as they are, under their old name.
    pub fn migrate_backward(self) -> (previous: ScoreV1)
        ensures
            previous.scores == self.all_scores,
    {
        ScoreV1 { scores: self.all_scores }
    }
}

} // verus!
