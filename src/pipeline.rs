//! The stages of one run: validate, rewrite the mouth folder, rewrite the eye
//! folder, relabel the face folder. The caller performs each stage and hands
//! back its errors.
use vstd::prelude::*;
use crate::error::{Errors, MultipleErrors, into_result};

verus! {

#[derive(Debug, Clone, Copy, PartialEq, Eq, Structural)]
pub enum Stage {
    Validating,
    RewritingMouth,
    RewritingEye,
    Relabelling,
    Done,
    Failed,
}

/// The stage after `s`, when that stage's errors are `step` and the errors
/// of the whole run, that stage's included, are `all`.
pub open spec fn next_stage(s: Stage, step: Seq<Errors>, all: Seq<Errors>) -> Stage {
    match s {
        Stage::Validating => if step.len() == 0 {
            Stage::RewritingMouth
        } else {
            Stage::Failed
        },
        Stage::RewritingMouth => Stage::RewritingEye,
        Stage::RewritingEye => Stage::Relabelling,
        Stage::Relabelling => if all.len() == 0 {
            Stage::Done
        } else {
            Stage::Failed
        },
        Stage::Done => Stage::Done,
        Stage::Failed => Stage::Failed,
    }
}

pub open spec fn is_final(s: Stage) -> bool {
    s == Stage::Done || s == Stage::Failed
}

/// A run in progress: its stage and the errors collected so far.
pub struct Pipeline {
    pub stage: Stage,
    pub errors: Vec<Errors>,
}

impl Pipeline {
    pub fn new() -> (r: Pipeline)
        ensures
            r.stage == Stage::Validating,
            r.errors@.len() == 0,
    {
        Pipeline { stage: Stage::Validating, errors: Vec::new() }
    }

    /// Records the errors of the current stage and moves on. Errors of a
    /// rewrite stage do not stop the run; errors of validation do.
    pub fn advance(&mut self, step: Vec<Errors>)
        requires
            !is_final(old(self).stage),
        ensures
            final(self).errors@ == old(self).errors@ + step@,
            final(self).stage == next_stage(old(self).stage, step@, final(self).errors@),
    {
        let ok = step.len() == 0;
        let mut step = step;
        self.errors.append(&mut step);
        self.stage = match self.stage {
            Stage::Validating => if ok {
                Stage::RewritingMouth
            } else {
                Stage::Failed
            },
            Stage::RewritingMouth => Stage::RewritingEye,
            Stage::RewritingEye => Stage::Relabelling,
            _ => if self.errors.len() == 0 {
                Stage::Done
            } else {
                Stage::Failed
            },
        };
    }

    /// The outcome of a finished run: success exactly when no error was collected.
    pub fn finish(self) -> (r: Result<(), MultipleErrors>)
        ensures
            r is Ok <==> self.errors@.len() == 0,
            r matches Err(e) ==> e.errors == self.errors,
    {
        into_result(self.errors)
    }
}

} // verus!
