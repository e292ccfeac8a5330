//! A second opinion on findings from a language model: the interface an
//! implementation provides. The library itself ships none.

use vstd::prelude::*;
use crate::finding::Finding;

verus! {

/// The verdict on one finding: whether it stands, with a comment.
pub struct ReviewVerdict {
    pub original: Finding,
    pub confirmed: bool,
    pub comment: String,
}

/// Why a review could not be made.
#[derive(Debug)]
pub enum LlmError {
    NotImplemented,
}

impl LlmError {
    /// The error's message.
    pub fn message(&self) -> (r: &'static str)
        ensures
            r@ == "not implemented"@,
    {
        "not implemented"
    }
}

/// Reviews findings; what a verdict says is the implementation's own.
pub trait LlmReviewer {
    fn review(&self, findings: &[Finding]) -> Result<Vec<ReviewVerdict>, LlmError>;
}

} // verus!
