//! What an interactive host and an evaluator agree on.

use vstd::prelude::*;

verus! {

/// What an evaluator hands back for a submission that it took: the text to
/// show, and what the host is to do with the input it has gathered.
#[derive(Debug, PartialEq, Eq)]
pub enum EvaluatorOk {
    /// Show the text and forget the gathered input.
    Clear(String),
    /// Show the text and keep the gathered input, for more to come.
    Append(String),
}

/// Something that takes the text of a submission and gives the text to
/// show, or the text of an error.
pub trait Evaluator {
    fn eval(&mut self, input: String) -> Result<EvaluatorOk, String>;
}

} // verus!
