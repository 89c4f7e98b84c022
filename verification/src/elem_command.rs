//! A simple command: a program with its arguments.

use crate::elems_in_command::{Eoc, Redirect};
use crate::feeder::Feeder;
use crate::pipeline::StartAction;
use crate::redirect::NO_FD;
use crate::shell_core::ShellCore;
use crate::text::{
    byte_len, lemma_split_nonempty, same_text, split_fields, split_on, texts, trim_end, trimmed_end,
};
use vstd::prelude::*;

verus! {

/// The status with which a child ends that cannot run its program.
pub const EXEC_FAILED_STATUS: i32 = 127;

/// A simple command with the descriptors that a pipeline assigned to it.
#[derive(Debug)]
pub struct Command {
    /// The command as it was read.
    pub text: String,
    /// The words of the command; the first names the program.
    pub args: Vec<String>,
    pub redirects: Vec<Redirect>,
    pub pid: Option<i32>,
    pub pipein: i32,
    pub pipeout: i32,
    pub prevpipein: i32,
    pub eoc: Option<Eoc>,
}

impl Command {
    /// Whether the command ends the shell: its text is `exit` and a line
    /// break.
    pub open spec fn is_exit(&self) -> bool {
        self.text@ == "exit\n"@
    }

    /// Whether the command changes the working directory: its first word is
    /// `cd` and another word follows.
    pub open spec fn is_cd(&self) -> bool {
        self.args@.len() > 1 && self.args@[0]@ == "cd"@
    }

    /// How the command is to be started. `exit` ends the shell with the
    /// status 0, `cd` with a directory changes the working directory of the
    /// shell, and for anything else a child is forked that runs the program.
    pub fn exec(&self) -> (action: StartAction)
        requires
            self.args@.len() >= 1,
        ensures
            self.is_exit() ==> (action matches StartAction::Exit { status } && status == 0),
            !self.is_exit() && self.is_cd() ==> (action matches StartAction::ChangeDir { path }
                && path@ == self.args@[1]@),
            !self.is_exit() && !self.is_cd() ==> action is Fork,
    {
        if same_text(self.text.as_str(), "exit\n") {
            return StartAction::Exit { status: 0 };
        }
        if same_text(self.args[0].as_str(), "cd") && self.args.len() > 1 {
            return StartAction::ChangeDir { path: self.args[1].clone() };
        }
        StartAction::Fork
    }

    /// Reads all the text that is left as one command: its words are the
    /// pieces between blanks of the text without the white space at its end.
    /// There is always at least one word, which may be empty. The feeder is
    /// left without text, its position moved on by the bytes that were read.
    pub fn parse(feeder: &mut Feeder, _core: &mut ShellCore) -> (r: Option<Command>)
        requires
            old(feeder).wf(),
        ensures
            r matches Some(command) && {
                &&& command.text@ == old(feeder)@
                &&& texts(command.args@) == split_fields(trim_end(old(feeder)@), ' ')
                &&& command.args@.len() >= 1
                &&& command.redirects@.len() == 0
                &&& command.pid is None
                &&& command.pipein == NO_FD
                &&& command.pipeout == NO_FD
                &&& command.prevpipein == NO_FD
                &&& command.eoc is None
            },
            final(feeder)@.len() == 0,
            final(feeder).pos_in_line == old(feeder).pos_in_line + byte_len(old(feeder)@),
            final(feeder).from_lineno == old(feeder).from_lineno,
            final(feeder).to_lineno == old(feeder).to_lineno,
            final(feeder).wf(),
            *final(_core) == *old(_core),
    {
        let length = feeder.len();
        let count = feeder.remaining.len();
        let end = trimmed_end(&feeder.remaining);
        let args = split_on(&feeder.remaining, end, ' ');
        proof {
            lemma_split_nonempty(trim_end(feeder@), ' ');
            assert(feeder@.take(count as int) =~= feeder@);
        }
        let line = feeder.consume_chars(count, length);
        if args.len() > 0 {
            Some(
                Command {
                    text: line,
                    args: args,
                    redirects: Vec::new(),
                    pid: None,
                    pipein: NO_FD,
                    pipeout: NO_FD,
                    prevpipein: NO_FD,
                    eoc: None,
                },
            )
        } else {
            None
        }
    }
}

} // verus!
