//! Pipelines: how the stages are wired to each other, what the parent closes
//! once a stage runs, and the job that a started pipeline becomes.

use crate::elem_command::Command;
use crate::elem_compound_brace::CompoundBrace;
use crate::elem_compound_if::CompoundIf;
use crate::job::{started_pids, Job, JobState, JobView, RecencyMark};
use crate::elems_in_command::{Eoc, Redirect};
use crate::redirect::{actions_view, child_io_plan, set_child_io, FdAction, RedirectError, NO_FD};
use vstd::prelude::*;

verus! {

/// How a stage is to be started.
#[derive(Debug)]
pub enum StartAction {
    /// Run the script of the stage in the shell itself; no process starts.
    InPlace,
    /// Fork; the child sets up its descriptors and runs the stage.
    Fork,
    /// End the shell with the given status; no process starts.
    Exit { status: i32 },
    /// Change the working directory of the shell; no process starts.
    ChangeDir { path: String },
}

/// The two ends of a pipe.
#[derive(Clone, Copy, Debug, PartialEq, Eq, Structural)]
pub struct PipeEnds {
    pub read_end: i32,
    pub write_end: i32,
}

/// The descriptors that a pipeline assigns to a stage: `pipeout` is the
/// write end of the pipe to the next stage, `pipein` the read end of that
/// pipe, which the stage itself does not use, and `prevpipein` the read end
/// of the pipe from the stage before. An end that is `-1` is not there.
#[derive(Clone, Copy, Debug, PartialEq, Eq, Structural)]
pub struct StageIo {
    pub pipein: i32,
    pub pipeout: i32,
    pub prevpipein: i32,
}

/// What the parent does once a stage runs: it closes the descriptors in
/// `close`, in that order, and keeps `next_prev` as the read end for the next
/// stage.
#[derive(Debug)]
pub struct ParentIo {
    pub close: Vec<i32>,
    pub next_prev: i32,
}

/// One stage of a pipeline.
#[derive(Debug)]
pub enum Node {
    Simple(Command),
    Brace(CompoundBrace),
    If(CompoundIf),
}

/// An ordered sequence of stages, connected output to input.
#[derive(Debug)]
pub struct Pipeline {
    pub commands: Vec<Node>,
    pub text: String,
    pub is_bg: bool,
}

/// The descriptors of a stage, given the pipe that was made for it and the
/// read end `prev` that the stage before left. The last stage gets no pipe
/// of its own, and the first stage no read end.
pub open spec fn wired(pipe: Option<PipeEnds>, prev: i32) -> StageIo {
    match pipe {
        Some(ends) => StageIo { pipein: ends.read_end, pipeout: ends.write_end, prevpipein: prev },
        None => StageIo { pipein: NO_FD, pipeout: NO_FD, prevpipein: prev },
    }
}

/// The descriptors that the parent closes once a stage with the descriptors
/// `io` runs: the write end that the stage took as its output, and the read
/// end that it took as its input. No other stage uses either.
pub open spec fn closed_by_parent(io: StageIo) -> Seq<i32> {
    (if io.pipeout >= 0 {
        seq![io.pipeout]
    } else {
        Seq::empty()
    }) + (if io.prevpipein >= 0 {
        seq![io.prevpipein]
    } else {
        Seq::empty()
    })
}

/// What the parent does once a stage with the descriptors `io` runs.
pub fn parent_io(io: StageIo) -> (r: ParentIo)
    ensures
        r.close@ == closed_by_parent(io),
        r.next_prev == io.pipein,
{
    let mut close: Vec<i32> = Vec::new();
    if io.pipeout >= 0 {
        close.push(io.pipeout);
    }
    if io.prevpipein >= 0 {
        close.push(io.prevpipein);
    }
    proof {
        assert(close@ =~= closed_by_parent(io));
    }
    ParentIo { close: close, next_prev: io.pipein }
}

impl Node {
    /// The process that the stage started, if it forked.
    pub open spec fn pid_view(&self) -> Option<i32> {
        match self {
            Node::Simple(node) => node.pid,
            Node::Brace(node) => node.pid,
            Node::If(node) => node.pid,
        }
    }

    /// The descriptors that the pipeline assigned to the stage.
    pub open spec fn io_view(&self) -> StageIo {
        match self {
            Node::Simple(node) => StageIo {
                pipein: node.pipein,
                pipeout: node.pipeout,
                prevpipein: node.prevpipein,
            },
            Node::Brace(node) => StageIo {
                pipein: node.pipein,
                pipeout: node.pipeout,
                prevpipein: node.prevpipein,
            },
            Node::If(node) => StageIo {
                pipein: node.pipein,
                pipeout: node.pipeout,
                prevpipein: node.prevpipein,
            },
        }
    }

    /// The redirections of the stage.
    pub open spec fn redirects_view(&self) -> Seq<Redirect> {
        match self {
            Node::Simple(node) => node.redirects@,
            Node::Brace(node) => node.redirects@,
            Node::If(node) => node.redirects@,
        }
    }

    /// The text of the stage.
    pub open spec fn text_view(&self) -> Seq<char> {
        match self {
            Node::Simple(node) => node.text@,
            Node::Brace(node) => node.text@,
            Node::If(node) => node.text@,
        }
    }

    /// The mark that ended the stage, if it has one.
    pub open spec fn eoc_view(&self) -> Option<Eoc> {
        match self {
            Node::Simple(node) => node.eoc,
            Node::Brace(node) => node.eoc,
            Node::If(node) => node.eoc,
        }
    }

    /// Whether the stage can be started: a simple command needs the word
    /// that names its program.
    pub open spec fn can_start(&self) -> bool {
        self matches Node::Simple(node) ==> node.args@.len() >= 1
    }

    /// Whether the stage starts a process of its own.
    pub open spec fn forks(&self) -> bool {
        match self {
            Node::Simple(node) => !node.is_exit() && !node.is_cd(),
            Node::Brace(node) => !node.runs_in_place(),
            Node::If(_) => true,
        }
    }

    /// How the stage is to be started: a simple command as
    /// [`Command::exec`] says, a brace group as [`CompoundBrace::exec`] says,
    /// an `if` compound always in a child.
    pub fn exec(&self) -> (action: StartAction)
        requires
            self.can_start(),
        ensures
            action is Fork <==> self.forks(),
            action is InPlace <==> (self matches Node::Brace(node) && node.runs_in_place()),
            action is Exit <==> (self matches Node::Simple(node) && node.is_exit()),
            action is ChangeDir <==> (self matches Node::Simple(node) && !node.is_exit()
                && node.is_cd()),
            action matches StartAction::Exit { status } ==> status == 0,
            action matches StartAction::ChangeDir { path } ==> (self matches Node::Simple(node)
                && path@ == node.args@[1]@),
    {
        match self {
            Node::Simple(node) => node.exec(),
            Node::Brace(node) => node.exec(),
            Node::If(node) => node.exec(),
        }
    }

    /// What the child of the stage does to its descriptors before it runs, as
    /// [`child_io_plan`] says.
    pub fn set_child_io(&self) -> (res: Result<Vec<FdAction>, RedirectError>)
        ensures
            match res {
                Ok(plan) => child_io_plan(
                    self.io_view().pipein,
                    self.io_view().pipeout,
                    self.io_view().prevpipein,
                    self.redirects_view(),
                ) matches Ok(steps) && steps == actions_view(plan@),
                Err(e) => child_io_plan(
                    self.io_view().pipein,
                    self.io_view().pipeout,
                    self.io_view().prevpipein,
                    self.redirects_view(),
                ) matches Err(cause) && cause == e,
            },
    {
        match self {
            Node::Simple(node) => set_child_io(
                node.pipein,
                node.pipeout,
                node.prevpipein,
                &node.redirects,
            ),
            Node::Brace(node) => node.set_child_io(),
            Node::If(node) => set_child_io(
                node.pipein,
                node.pipeout,
                node.prevpipein,
                &node.redirects,
            ),
        }
    }

    /// The text of the stage.
    pub fn get_text(&self) -> (text: String)
        ensures
            text@ == self.text_view(),
    {
        match self {
            Node::Simple(node) => node.text.clone(),
            Node::Brace(node) => node.text.clone(),
            Node::If(node) => node.get_text(),
        }
    }

    /// The text of the mark that ended the stage; empty where there is none.
    pub fn get_eoc_string(&self) -> (mark: String)
        ensures
            mark@ == match self.eoc_view() {
                Some(eoc) => eoc.text@,
                None => Seq::empty(),
            },
    {
        match self {
            Node::Simple(node) => match &node.eoc {
                Some(eoc) => eoc.text.clone(),
                None => String::new(),
            },
            Node::Brace(node) => node.get_eoc_string(),
            Node::If(node) => node.get_eoc_string(),
        }
    }

    /// The process that the stage started, if it forked.
    pub fn get_pid(&self) -> (pid: Option<i32>)
        ensures
            pid == self.pid_view(),
    {
        match self {
            Node::Simple(node) => node.pid,
            Node::Brace(node) => node.get_pid(),
            Node::If(node) => node.get_pid(),
        }
    }

    /// Records the process that was forked for the stage.
    pub fn set_pid(&mut self, pid: i32)
        ensures
            final(self).pid_view() == Some(pid),
            final(self).io_view() == old(self).io_view(),
            final(self).redirects_view() == old(self).redirects_view(),
            final(self).text_view() == old(self).text_view(),
            final(self).eoc_view() == old(self).eoc_view(),
            final(self).can_start() == old(self).can_start(),
    {
        match self {
            Node::Simple(node) => {
                node.pid = Some(pid);
            },
            Node::Brace(node) => {
                node.pid = Some(pid);
            },
            Node::If(node) => {
                node.pid = Some(pid);
            },
        }
    }

    /// Assigns the descriptors of the stage.
    pub fn set_pipe(&mut self, pin: i32, pout: i32, pprev: i32)
        ensures
            final(self).io_view() == (StageIo { pipein: pin, pipeout: pout, prevpipein: pprev }),
            final(self).pid_view() == old(self).pid_view(),
            final(self).redirects_view() == old(self).redirects_view(),
            final(self).text_view() == old(self).text_view(),
            final(self).eoc_view() == old(self).eoc_view(),
            final(self).can_start() == old(self).can_start(),
    {
        match self {
            Node::Simple(node) => {
                node.pipein = pin;
                node.pipeout = pout;
                node.prevpipein = pprev;
            },
            Node::Brace(node) => {
                node.set_pipe(pin, pout, pprev);
            },
            Node::If(node) => {
                node.set_pipe(pin, pout, pprev);
            },
        }
    }

    /// What the parent does once the stage runs.
    pub fn set_parent_io(&self) -> (r: ParentIo)
        ensures
            r.close@ == closed_by_parent(self.io_view()),
            r.next_prev == self.io_view().pipein,
    {
        match self {
            Node::Simple(node) => parent_io(
                StageIo {
                    pipein: node.pipein,
                    pipeout: node.pipeout,
                    prevpipein: node.prevpipein,
                },
            ),
            Node::Brace(node) => node.set_parent_io(),
            Node::If(node) => parent_io(
                StageIo {
                    pipein: node.pipein,
                    pipeout: node.pipeout,
                    prevpipein: node.prevpipein,
                },
            ),
        }
    }
}

/// The processes that the stages report, stage by stage.
pub open spec fn reported_pids(commands: Seq<Node>) -> Seq<Option<i32>> {
    commands.map_values(|node: Node| node.pid_view())
}

impl Pipeline {
    /// Whether a pipe has to be made for the stage `i`: every stage but the
    /// last writes into a pipe, so that a pipeline of `n` stages has `n - 1`
    /// pipes.
    pub fn needs_pipe(&self, i: usize) -> (needed: bool)
        ensures
            needed == (i + 1 < self.commands@.len()),
    {
        i < self.commands.len() && i + 1 < self.commands.len()
    }

    /// Assigns the descriptors of the stage `i`: the ends of the pipe that
    /// was made for it, if one was needed, and the read end `prev` that the
    /// stage before left, `-1` for the first stage. The other stages stay as
    /// they are.
    pub fn wire(&mut self, i: usize, pipe: Option<PipeEnds>, prev: i32)
        requires
            i < old(self).commands@.len(),
            pipe is Some <==> i + 1 < old(self).commands@.len(),
        ensures
            final(self).commands@.len() == old(self).commands@.len(),
            final(self).commands@[i as int].io_view() == wired(pipe, prev),
            final(self).commands@[i as int].pid_view() == old(self).commands@[i as int].pid_view(),
            final(self).commands@[i as int].redirects_view() == old(
                self,
            ).commands@[i as int].redirects_view(),
            final(self).commands@[i as int].text_view() == old(self).commands@[i as int].text_view(),
            final(self).commands@[i as int].can_start() == old(self).commands@[i as int].can_start(),
            forall|k: int|
                0 <= k < old(self).commands@.len() && k != i ==> final(self).commands@[k] == old(
                    self,
                ).commands@[k],
            final(self).text == old(self).text,
            final(self).is_bg == old(self).is_bg,
    {
        match pipe {
            Some(ends) => {
                self.commands[i].set_pipe(ends.read_end, ends.write_end, prev);
            },
            None => {
                self.commands[i].set_pipe(NO_FD, NO_FD, prev);
            },
        }
    }

    /// The job of the pipeline once its stages were started: it holds the
    /// process of every stage that forked, in stage order, and is `Running`.
    pub fn job(&self) -> (job: Job)
        ensures
            job@ == (JobView {
                pids: started_pids(reported_pids(self.commands@)),
                async_pids: Seq::empty(),
                text: self.text@,
                status: JobState::Running,
                is_bg: self.is_bg,
                is_waited: false,
                id: 0,
                mark: RecencyMark::Other,
            }),
    {
        let mut reported: Vec<Option<i32>> = Vec::new();
        let mut i: usize = 0;
        while i < self.commands.len()
            invariant
                i <= self.commands@.len(),
                reported@ == reported_pids(self.commands@).take(i as int),
            decreases self.commands@.len() - i,
        {
            reported.push(self.commands[i].get_pid());
            proof {
                assert(reported@ =~= reported_pids(self.commands@).take(i + 1));
            }
            i += 1;
        }
        proof {
            assert(reported@ =~= reported_pids(self.commands@));
        }
        Job::new(&self.text, &reported, self.is_bg)
    }
}

/// The descriptors of the stage `i` of a pipeline whose stages are wired
/// from left to right with the pipes `pipes`, one pipe between each stage and
/// the next: the stage writes to the pipe `i`, which the last stage has not,
/// and reads from the pipe `i - 1`, which the first stage has not.
pub open spec fn stage_io(pipes: Seq<PipeEnds>, i: int) -> StageIo {
    wired(
        if 0 <= i < pipes.len() {
            Some(pipes[i])
        } else {
            None
        },
        if 0 < i <= pipes.len() {
            pipes[i - 1].read_end
        } else {
            NO_FD
        },
    )
}

/// The descriptors that the parent has closed once the stages up to `n`,
/// that one not included, run.
pub open spec fn closed_so_far(pipes: Seq<PipeEnds>, n: int) -> Seq<i32>
    decreases n,
{
    if n <= 0 {
        Seq::empty()
    } else {
        closed_so_far(pipes, n - 1) + closed_by_parent(stage_io(pipes, n - 1))
    }
}

/// Whether both ends of every pipe are descriptors.
pub open spec fn pipes_open(pipes: Seq<PipeEnds>) -> bool {
    forall|j: int|
        0 <= j < pipes.len() ==> (#[trigger] pipes[j]).read_end >= 0 && pipes[j].write_end >= 0
}

/// What the parent keeps once the stage `i` runs is what the stage `i + 1`
/// reads from, so that wiring the stages one after the other gives each stage
/// the descriptors that [`stage_io`] names. Once the stage `i` runs, the
/// parent closes the write end of the pipe `i` and the read end of the pipe
/// `i - 1`, and nothing else.
pub proof fn lemma_stage_hands_on(pipes: Seq<PipeEnds>, i: int)
    requires
        pipes_open(pipes),
        0 <= i <= pipes.len(),
    ensures
        i < pipes.len() ==> stage_io(pipes, i + 1) == wired(
            if i + 1 < pipes.len() {
                Some(pipes[i + 1])
            } else {
                None
            },
            stage_io(pipes, i).pipein,
        ),
        stage_io(pipes, 0).prevpipein == NO_FD,
        stage_io(pipes, pipes.len() as int).pipeout == NO_FD,
        closed_by_parent(stage_io(pipes, i)) == (if i < pipes.len() {
            seq![pipes[i].write_end]
        } else {
            Seq::empty()
        }) + (if i > 0 {
            seq![pipes[i - 1].read_end]
        } else {
            Seq::empty()
        }),
{
    if i < pipes.len() {
        assert(pipes[i].read_end >= 0 && pipes[i].write_end >= 0);
    }
    if i > 0 {
        assert(pipes[i - 1].read_end >= 0 && pipes[i - 1].write_end >= 0);
    }
}

/// Once the first `n` stages run, the parent has closed the write end of
/// each of the first `n` pipes and the read end of each of the first `n - 1`
/// pipes. Once all stages run, it has closed both ends of every pipe, each at
/// one place: two descriptors for each pipe.
pub proof fn lemma_every_end_is_closed(pipes: Seq<PipeEnds>, n: int)
    requires
        pipes_open(pipes),
        0 <= n <= pipes.len() + 1,
    ensures
        closed_so_far(pipes, n).len() == if n == 0 {
            0int
        } else if n <= pipes.len() {
            2 * n - 1
        } else {
            2 * pipes.len() as int
        },
        forall|j: int|
            0 <= j < pipes.len() && j < n ==> closed_so_far(pipes, n).contains(
                (#[trigger] pipes[j]).write_end,
            ),
        forall|j: int|
            0 <= j < pipes.len() && j + 1 < n ==> closed_so_far(pipes, n).contains(
                (#[trigger] pipes[j]).read_end,
            ),
    decreases n,
{
    if n > 0 {
        lemma_every_end_is_closed(pipes, n - 1);
        lemma_stage_hands_on(pipes, n - 1);
        let before = closed_so_far(pipes, n - 1);
        let now = closed_by_parent(stage_io(pipes, n - 1));
        let all = closed_so_far(pipes, n);
        assert forall|j: int| 0 <= j < pipes.len() && j < n implies all.contains(
            (#[trigger] pipes[j]).write_end,
        ) by {
            if j < n - 1 {
                let k = choose|k: int| 0 <= k < before.len() && before[k] == pipes[j].write_end;
                assert(all[k] == pipes[j].write_end);
            } else {
                assert(now[0] == pipes[j].write_end);
                assert(all[before.len() as int] == pipes[j].write_end);
            }
        }
        assert forall|j: int| 0 <= j < pipes.len() && j + 1 < n implies all.contains(
            (#[trigger] pipes[j]).read_end,
        ) by {
            if j + 1 < n - 1 {
                let k = choose|k: int| 0 <= k < before.len() && before[k] == pipes[j].read_end;
                assert(all[k] == pipes[j].read_end);
            } else {
                assert(now[now.len() - 1] == pipes[j].read_end);
                assert(all[all.len() - 1] == pipes[j].read_end);
            }
        }
    }
}

} // verus!
