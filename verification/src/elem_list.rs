//! A script: the pipelines of a piece of command text, in order.

use crate::pipeline::Pipeline;
use vstd::prelude::*;

verus! {

/// A sequence of pipelines with the text they were read from.
#[derive(Debug)]
pub struct Script {
    pub elems: Vec<Pipeline>,
    pub text: String,
    /// The number of pipelines that start a process.
    pub procnum: usize,
}

impl Script {
    /// An empty script.
    pub fn new() -> (script: Script)
        ensures
            script.elems@.len() == 0,
            script.text@ == Seq::<char>::empty(),
            script.procnum == 0,
    {
        Script { elems: Vec::new(), text: String::new(), procnum: 0 }
    }
}

} // verus!
