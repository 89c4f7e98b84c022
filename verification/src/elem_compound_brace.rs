//! A brace group: a script between `{` and `}`.

use crate::elem_list::Script;
use crate::elems_in_command::{Eoc, Redirect};
use crate::pipeline::{closed_by_parent, parent_io, ParentIo, StageIo, StartAction};
use crate::redirect::{
    actions_view, child_io_plan, set_child_io, FdAction, RedirectError, NO_FD,
};
use crate::text::chars_of;
use vstd::prelude::*;

verus! {

/// Whether the last character of the first `n` characters that is no blank
/// is a line break, a semicolon or a tab.
pub open spec fn ends_command(s: Seq<char>, n: int) -> bool
    decreases n,
{
    if n <= 0 {
        false
    } else if s[n - 1] == ' ' {
        ends_command(s, n - 1)
    } else {
        s[n - 1] == '\n' || s[n - 1] == ';' || s[n - 1] == '\t'
    }
}

/// Whether the text of a script ends as the body of a brace group has to:
/// with a line break, a semicolon or a tab, after which only blanks follow.
pub fn tail_check(s: &String) -> (ok: bool)
    ensures
        ok == ends_command(s@, s@.len() as int),
{
    let chars = chars_of(s.as_str());
    let mut n = chars.len();
    while n > 0
        invariant
            n <= chars@.len(),
            chars@ == s@,
            ends_command(s@, s@.len() as int) == ends_command(s@, n as int),
        decreases n,
    {
        let ch = chars[n - 1];
        if ch != ' ' {
            return ch == '\n' || ch == ';' || ch == '\t';
        }
        n -= 1;
    }
    false
}

/// A brace group with the descriptors that a pipeline assigned to it.
#[derive(Debug)]
pub struct CompoundBrace {
    pub script: Option<Script>,
    pub redirects: Vec<Redirect>,
    pub text: String,
    pub pid: Option<i32>,
    pub pipein: i32,
    pub pipeout: i32,
    /// The read end of the pipe from the stage before; a pipeline sets it.
    pub prevpipein: i32,
    pub eoc: Option<Eoc>,
}

impl CompoundBrace {
    /// Whether the group runs in the shell itself: it has a script, no pipe
    /// end was assigned to it, and it has no redirection.
    pub open spec fn runs_in_place(&self) -> bool {
        &&& self.pipeout == NO_FD
        &&& self.pipein == NO_FD
        &&& self.prevpipein == NO_FD
        &&& self.redirects@.len() == 0
        &&& self.script is Some
    }

    /// The descriptors that the pipeline assigned to the group.
    pub open spec fn io_view(&self) -> StageIo {
        StageIo { pipein: self.pipein, pipeout: self.pipeout, prevpipein: self.prevpipein }
    }

    /// A group without a script, connected to nothing.
    pub fn new() -> (group: CompoundBrace)
        ensures
            group.script is None,
            group.pid is None,
            group.redirects@.len() == 0,
            group.text@ == Seq::<char>::empty(),
            group.io_view() == (StageIo { pipein: NO_FD, pipeout: NO_FD, prevpipein: NO_FD }),
            group.eoc is None,
    {
        CompoundBrace {
            script: None,
            pid: None,
            redirects: Vec::new(),
            text: String::new(),
            pipein: NO_FD,
            pipeout: NO_FD,
            prevpipein: NO_FD,
            eoc: None,
        }
    }

    /// How the group is to be started: in place where it runs with the
    /// streams of the shell, in a child otherwise.
    pub fn exec(&self) -> (action: StartAction)
        ensures
            self.runs_in_place() ==> action is InPlace,
            !self.runs_in_place() ==> action is Fork,
    {
        if self.pipeout == NO_FD && self.pipein == NO_FD && self.prevpipein == NO_FD
            && self.redirects.len() == 0 && self.script.is_some() {
            StartAction::InPlace
        } else {
            StartAction::Fork
        }
    }

    /// The process that was forked for the group, if one was.
    pub fn get_pid(&self) -> (pid: Option<i32>)
        ensures
            pid == self.pid,
    {
        self.pid
    }

    /// Assigns the pipe ends of the group.
    pub fn set_pipe(&mut self, pin: i32, pout: i32, pprev: i32)
        ensures
            final(self).io_view() == (StageIo { pipein: pin, pipeout: pout, prevpipein: pprev }),
            final(self).pid == old(self).pid,
            final(self).script == old(self).script,
            final(self).redirects == old(self).redirects,
            final(self).text == old(self).text,
            final(self).eoc == old(self).eoc,
    {
        self.pipein = pin;
        self.pipeout = pout;
        self.prevpipein = pprev;
    }

    /// What the parent does once the group runs in its child.
    pub fn set_parent_io(&self) -> (r: ParentIo)
        ensures
            r.close@ == closed_by_parent(self.io_view()),
            r.next_prev == self.pipein,
    {
        parent_io(
            StageIo { pipein: self.pipein, pipeout: self.pipeout, prevpipein: self.prevpipein },
        )
    }

    /// The text of the mark that ended the group; empty where there is none.
    pub fn get_eoc_string(&self) -> (mark: String)
        ensures
            mark@ == match self.eoc {
                Some(eoc) => eoc.text@,
                None => Seq::empty(),
            },
    {
        match &self.eoc {
            Some(eoc) => eoc.text.clone(),
            None => String::new(),
        }
    }

    /// What the child of the group does to its descriptors before it runs
    /// the script, as [`child_io_plan`] says.
    pub fn set_child_io(&self) -> (res: Result<Vec<FdAction>, RedirectError>)
        ensures
            match res {
                Ok(plan) => child_io_plan(
                    self.pipein,
                    self.pipeout,
                    self.prevpipein,
                    self.redirects@,
                ) matches Ok(steps) && steps == actions_view(plan@),
                Err(e) => child_io_plan(
                    self.pipein,
                    self.pipeout,
                    self.prevpipein,
                    self.redirects@,
                ) matches Err(cause) && cause == e,
            },
    {
        set_child_io(self.pipein, self.pipeout, self.prevpipein, &self.redirects)
    }
}

} // verus!
