//! An `if` compound: conditions with their bodies, and an optional `else`.

use crate::elem_list::Script;
use crate::elems_in_command::{Eoc, Redirect};
use crate::pipeline::StartAction;
use crate::redirect::NO_FD;
use vstd::prelude::*;

verus! {

/// An `if` compound with the descriptors that a pipeline assigned to it.
#[derive(Debug)]
pub struct CompoundIf {
    /// The conditions, each with the body that runs where it succeeds.
    pub ifthen: Vec<(Script, Script)>,
    pub else_do: Option<Script>,
    pub text: String,
    pub pid: Option<i32>,
    pub redirects: Vec<Redirect>,
    pub pipein: i32,
    pub pipeout: i32,
    pub prevpipein: i32,
    pub eoc: Option<Eoc>,
}

/// A step in the run of an `if` compound.
#[derive(Clone, Copy, Debug, PartialEq, Eq, Structural)]
pub enum IfStep {
    /// Run the condition of the pair with this index.
    Condition(usize),
    /// Run the body of the pair with this index.
    Body(usize),
    /// Run the `else` body.
    Else,
    /// Nothing is left to run.
    Finish,
}

/// The step that comes where the pairs from `from` on are still to be
/// tried: the condition of the pair `from` if there is one, else the `else`
/// body if there is one, else the end.
pub open spec fn try_from(pairs: nat, has_else: bool, from: nat) -> IfStep {
    if from < pairs {
        IfStep::Condition(from as usize)
    } else if has_else {
        IfStep::Else
    } else {
        IfStep::Finish
    }
}

/// The step that follows `step`, which ended with a status that is zero or
/// not, as `succeeded` says. A condition that succeeded is followed by its
/// body, one that failed by the next pair. After a body or the `else` body
/// nothing is left to run.
pub open spec fn step_after(pairs: nat, has_else: bool, step: IfStep, succeeded: bool) -> IfStep {
    match step {
        IfStep::Condition(i) => if succeeded {
            IfStep::Body(i)
        } else {
            try_from(pairs, has_else, (i + 1) as nat)
        },
        _ => IfStep::Finish,
    }
}

impl CompoundIf {
    /// An `if` compound without pairs, connected to nothing.
    pub fn new() -> (compound: CompoundIf)
        ensures
            compound.ifthen@.len() == 0,
            compound.else_do is None,
            compound.redirects@.len() == 0,
            compound.text@ == Seq::<char>::empty(),
            compound.pipein == NO_FD,
            compound.pipeout == NO_FD,
            compound.prevpipein == NO_FD,
            compound.pid is None,
            compound.eoc is None,
    {
        CompoundIf {
            ifthen: Vec::new(),
            else_do: None,
            redirects: Vec::new(),
            text: String::new(),
            pipein: NO_FD,
            pipeout: NO_FD,
            prevpipein: NO_FD,
            pid: None,
            eoc: None,
        }
    }

    /// How the compound is to be started: always in a child.
    pub fn exec(&self) -> (action: StartAction)
        ensures
            action is Fork,
    {
        StartAction::Fork
    }

    /// The first step of the run of the compound in its child.
    pub fn first_step(&self) -> (step: IfStep)
        ensures
            step == try_from(self.ifthen@.len(), self.else_do is Some, 0),
    {
        if self.ifthen.len() > 0 {
            IfStep::Condition(0)
        } else if self.else_do.is_some() {
            IfStep::Else
        } else {
            IfStep::Finish
        }
    }

    /// The step that follows `step`, as [`step_after`] says; `succeeded`
    /// tells whether the script of `step` left the status zero.
    pub fn exec_if_compound(&self, step: IfStep, succeeded: bool) -> (next: IfStep)
        ensures
            next == step_after(self.ifthen@.len(), self.else_do is Some, step, succeeded),
    {
        match step {
            IfStep::Condition(i) => {
                if succeeded {
                    IfStep::Body(i)
                } else if i < self.ifthen.len() && i + 1 < self.ifthen.len() {
                    IfStep::Condition(i + 1)
                } else if self.else_do.is_some() {
                    IfStep::Else
                } else {
                    IfStep::Finish
                }
            },
            _ => IfStep::Finish,
        }
    }

    /// The process that was forked for the compound, if one was.
    pub fn get_pid(&self) -> (pid: Option<i32>)
        ensures
            pid == self.pid,
    {
        self.pid
    }

    /// Assigns the pipe ends of the compound.
    pub fn set_pipe(&mut self, pin: i32, pout: i32, pprev: i32)
        ensures
            final(self).pipein == pin,
            final(self).pipeout == pout,
            final(self).prevpipein == pprev,
            final(self).pid == old(self).pid,
            final(self).ifthen == old(self).ifthen,
            final(self).else_do == old(self).else_do,
            final(self).redirects == old(self).redirects,
            final(self).text == old(self).text,
            final(self).eoc == old(self).eoc,
    {
        self.pipein = pin;
        self.pipeout = pout;
        self.prevpipein = pprev;
    }

    /// The read end of the pipe to the next stage.
    pub fn get_pipe_end(&self) -> (fd: i32)
        ensures
            fd == self.pipein,
    {
        self.pipein
    }

    /// The write end of the pipe to the next stage.
    pub fn get_pipe_out(&self) -> (fd: i32)
        ensures
            fd == self.pipeout,
    {
        self.pipeout
    }

    /// The text of the mark that ended the compound; empty where there is
    /// none.
    pub fn get_eoc_string(&self) -> (mark: String)
        ensures
            mark@ == match self.eoc {
                Some(eoc) => eoc.text@,
                None => Seq::empty(),
            },
    {
        match &self.eoc {
            Some(eoc) => eoc.text.clone(),
            None => String::new(),
        }
    }

    /// The text of the compound.
    pub fn get_text(&self) -> (text: String)
        ensures
            text@ == self.text@,
    {
        self.text.clone()
    }
}

} // verus!
