//! The record that the shell keeps for one pipeline invocation.

use crate::text::{decimal_nat, push_decimal};
use crate::wait::{
    answer_in_order, answers, answers_of, wait_polling, WaitError, WaitOutcome,
};
use vstd::prelude::*;

verus! {

/// The lifecycle state of a job. `Running` leads to `Done` or `Stopped`,
/// `Stopped` back to `Running` or on to `Done`, and `Done` to `Printed`, where
/// it ends.
#[derive(Clone, Copy, Debug, PartialEq, Eq, Structural)]
pub enum JobState {
    Running,
    Stopped,
    Done,
    Printed,
}

/// How recently a background job was referred to: the current job is shown
/// with `+`, the previous one with `-`, every other with a blank.
#[derive(Clone, Copy, Debug, PartialEq, Eq, Structural)]
pub enum RecencyMark {
    Current,
    Previous,
    Other,
}

/// One row of the job table.
#[derive(Debug)]
pub struct Job {
    /// The process of each stage that was forked, in stage order.
    pub pids: Vec<i32>,
    /// The processes of a background job that are not known to have finished.
    pub async_pids: Vec<i32>,
    /// The command text that the job was built from. No function of this
    /// crate changes it once the job is made.
    pub text: String,
    pub status: JobState,
    pub is_bg: bool,
    pub is_waited: bool,
    /// The job number; 0 while the job is in the foreground slot.
    pub id: usize,
    pub mark: RecencyMark,
}

/// The mathematical value of a [`Job`].
pub struct JobView {
    pub pids: Seq<i32>,
    pub async_pids: Seq<i32>,
    pub text: Seq<char>,
    pub status: JobState,
    pub is_bg: bool,
    pub is_waited: bool,
    pub id: usize,
    pub mark: RecencyMark,
}

/// The character that shows a recency mark.
pub open spec fn mark_char(mark: RecencyMark) -> char {
    match mark {
        RecencyMark::Current => '+',
        RecencyMark::Previous => '-',
        RecencyMark::Other => ' ',
    }
}

/// The word that shows a state.
pub open spec fn state_name(state: JobState) -> Seq<char> {
    match state {
        JobState::Running => "Running"@,
        JobState::Stopped => "Stopped"@,
        JobState::Done => "Done"@,
        JobState::Printed => "Printed"@,
    }
}

/// The status line of a job: `[<number>]<mark> <state> <text>`.
pub open spec fn status_line(job: JobView) -> Seq<char> {
    seq!['['] + decimal_nat(job.id as nat) + seq![']', mark_char(job.mark), ' '] + state_name(
        job.status,
    ) + seq![' '] + job.text
}

/// The processes that the started stages reported, in stage order; a stage
/// that ran without forking reported none.
pub open spec fn started_pids(reported: Seq<Option<i32>>) -> Seq<i32>
    decreases reported.len(),
{
    if reported.len() == 0 {
        Seq::empty()
    } else {
        let rest = started_pids(reported.drop_last());
        match reported.last() {
            Some(pid) => rest.push(pid),
            None => rest,
        }
    }
}

/// The processes that stay pending after a poll. `order` lists the processes
/// in the order in which they were polled, `done` says of each whether it
/// reported a definitive outcome. The processes that did not are kept, in
/// polling order.
pub open spec fn still_pending(order: Seq<i32>, done: Seq<bool>) -> Seq<i32>
    decreases order.len(),
{
    if order.len() == 0 || done.len() != order.len() {
        Seq::empty()
    } else {
        let rest = still_pending(order.drop_last(), done.drop_last());
        if done.last() {
            rest
        } else {
            rest.push(order.last())
        }
    }
}

/// The processes that a poll of the job asks after, in the order in which
/// it asks: none for a job that is marked as waited, else the pending
/// processes from the last one to the first.
pub open spec fn poll_order(job: JobView) -> Seq<i32> {
    if job.is_waited {
        Seq::empty()
    } else {
        job.async_pids.reverse()
    }
}

/// The job after a poll of its pending processes, with `done[k]` the answer
/// for the `k`-th process of [`poll_order`]. A job that is marked as waited,
/// or has nothing pending, is left alone. Of any other job the processes that
/// are not finished stay pending; when none is left, a job that is `Running`
/// or `Stopped` becomes `Done`.
pub open spec fn after_poll(job: JobView, done: Seq<bool>) -> JobView {
    if polls_nothing(job) {
        job
    } else {
        let remain = still_pending(poll_order(job), done);
        JobView {
            async_pids: remain,
            status: if remain.len() == 0 && (job.status == JobState::Running || job.status
                == JobState::Stopped) {
                JobState::Done
            } else {
                job.status
            },
            ..job
        }
    }
}

/// The job after its status was reported once: a `Done` job becomes
/// `Printed`, any other is unchanged.
pub open spec fn after_report(job: JobView) -> JobView {
    if job.status == JobState::Done {
        JobView { status: JobState::Printed, ..job }
    } else {
        job
    }
}

/// Whether the job has run to its end: it is `Done` or `Printed`. Such a job
/// is not waited for again.
pub open spec fn is_over(job: JobView) -> bool {
    job.status == JobState::Done || job.status == JobState::Printed
}

/// Whether a job may pass from the state `from` to the state `to`: a
/// `Running` job becomes `Done` or `Stopped`, a `Stopped` job `Running` or
/// `Done`, a `Done` job `Printed`; a `Printed` job stays as it is.
pub open spec fn may_become(from: JobState, to: JobState) -> bool {
    from == to || match from {
        JobState::Running => to == JobState::Done || to == JobState::Stopped,
        JobState::Stopped => to == JobState::Running || to == JobState::Done,
        JobState::Done => to == JobState::Printed,
        JobState::Printed => false,
    }
}

/// Whether the state of a job fits its pending processes: a job that is
/// `Done` or `Printed` waits for nothing.
pub open spec fn settled_when_done(job: JobView) -> bool {
    job.status == JobState::Done || job.status == JobState::Printed ==> job.async_pids.len() == 0
}

/// A report and a poll move a job along its lifecycle only: a report takes a
/// `Done` job to `Printed` and changes no other, and a poll takes a `Running`
/// or `Stopped` job whose pending processes are all finished to `Done` and
/// changes the state of no other. A `Printed` job stays `Printed`. A job that
/// is `Done` or `Printed` and waits for nothing waits for nothing afterwards.
pub proof fn lemma_job_follows_lifecycle(job: JobView, done: Seq<bool>)
    ensures
        may_become(job.status, after_report(job).status),
        may_become(job.status, after_poll(job, done).status),
        job.status == JobState::Printed ==> after_poll(job, done).status == JobState::Printed
            && after_report(job).status == JobState::Printed,
        settled_when_done(job) ==> settled_when_done(after_report(job)) && settled_when_done(
            after_poll(job, done),
        ),
{
}

/// A job is reported twice: the second report changes nothing and prints
/// nothing, whatever the state of the job was. Only a `Done` job is printed,
/// and no job is `Done` after a report, so none passes from `Done` to
/// `Printed` twice.
pub proof fn lemma_report_is_idempotent(job: JobView)
    ensures
        after_report(after_report(job)) == after_report(job),
        after_report(job).status != JobState::Done,
        !is_reported(after_report(job)),
        job.status != JobState::Done ==> after_report(job) == job,
{
}

/// Whether a report of the job prints its status line: that is so for a
/// `Done` job only.
pub open spec fn is_reported(job: JobView) -> bool {
    job.status == JobState::Done
}

/// Whether a poll of the job asks the system after no process: the job is
/// marked as waited, or nothing is pending. Such a poll cannot fail.
pub open spec fn polls_nothing(job: JobView) -> bool {
    job.is_waited || job.async_pids.len() == 0
}

/// Whether every pending process of the job is one of its stages.
pub open spec fn pending_within_stages(job: JobView) -> bool {
    forall|i: int|
        0 <= i < job.async_pids.len() ==> job.pids.contains(#[trigger] job.async_pids[i])
}

impl View for Job {
    type V = JobView;

    open spec fn view(&self) -> JobView {
        JobView {
            pids: self.pids@,
            async_pids: self.async_pids@,
            text: self.text@,
            status: self.status,
            is_bg: self.is_bg,
            is_waited: self.is_waited,
            id: self.id,
            mark: self.mark,
        }
    }
}

impl Job {
    /// Whether the job has run to its end, as [`is_over`] says.
    pub fn over(&self) -> (b: bool)
        ensures
            b == is_over(self@),
    {
        match self.status {
            JobState::Done => true,
            JobState::Printed => true,
            _ => false,
        }
    }

    /// Makes the job of a pipeline whose stages reported `reported` when they
    /// were started. The job is `Running`, has no number and no mark, and
    /// nothing is pending yet.
    pub fn new(text: &String, reported: &Vec<Option<i32>>, is_bg: bool) -> (job: Job)
        ensures
            job@ == (JobView {
                pids: started_pids(reported@),
                async_pids: Seq::empty(),
                text: text@,
                status: JobState::Running,
                is_bg: is_bg,
                is_waited: false,
                id: 0,
                mark: RecencyMark::Other,
            }),
    {
        let mut pids: Vec<i32> = Vec::new();
        let mut i: usize = 0;
        while i < reported.len()
            invariant
                i <= reported.len(),
                pids@ == started_pids(reported@.take(i as int)),
            decreases reported.len() - i,
        {
            proof {
                assert(reported@.take(i + 1).drop_last() == reported@.take(i as int));
            }
            match reported[i] {
                Some(pid) => {
                    pids.push(pid);
                },
                None => {},
            }
            i += 1;
        }
        proof {
            assert(reported@.take(i as int) == reported@);
        }
        Job {
            pids: pids,
            async_pids: Vec::new(),
            text: text.clone(),
            status: JobState::Running,
            is_bg: is_bg,
            is_waited: false,
            id: 0,
            mark: RecencyMark::Other,
        }
    }

    /// A copy of the job, equal to it in every field.
    pub fn duplicate(&self) -> (job: Job)
        ensures
            job@ == self@,
    {
        let pids = self.pids.clone();
        let async_pids = self.async_pids.clone();
        proof {
            assert(pids@ =~= self.pids@);
            assert(async_pids@ =~= self.async_pids@);
        }
        Job {
            pids: pids,
            async_pids: async_pids,
            text: self.text.clone(),
            status: self.status,
            is_bg: self.is_bg,
            is_waited: self.is_waited,
            id: self.id,
            mark: self.mark,
        }
    }

    /// The status line of the job.
    pub fn status_string(&self) -> (line: String)
        ensures
            line@ == status_line(self@),
    {
        let mut line = String::new();
        line.push('[');
        push_decimal(&mut line, self.id as u64);
        line.push(']');
        line.push(
            match self.mark {
                RecencyMark::Current => '+',
                RecencyMark::Previous => '-',
                RecencyMark::Other => ' ',
            },
        );
        line.push(' ');
        line.append(
            match self.status {
                JobState::Running => "Running",
                JobState::Stopped => "Stopped",
                JobState::Done => "Done",
                JobState::Printed => "Printed",
            },
        );
        line.push(' ');
        line.append(self.text.as_str());
        proof {
            assert(line@ =~= status_line(self@));
        }
        line
    }

    /// The processes that a poll of the job asks after, in the order in
    /// which it asks, as [`poll_order`] says.
    pub fn polling_order(&self) -> (order: Vec<i32>)
        ensures
            order@ == poll_order(self@),
    {
        let mut order: Vec<i32> = Vec::new();
        if self.is_waited {
            return order;
        }
        let n = self.async_pids.len();
        let mut k: usize = 0;
        while k < n
            invariant
                k <= n,
                n == self.async_pids@.len(),
                order@ == self.async_pids@.reverse().take(k as int),
            decreases n - k,
        {
            order.push(self.async_pids[n - 1 - k]);
            proof {
                assert(order@ =~= self.async_pids@.reverse().take(k + 1));
            }
            k += 1;
        }
        proof {
            assert(order@ =~= self.async_pids@.reverse());
        }
        order
    }

    /// Applies the answers of one poll to the job, as [`after_poll`] says.
    /// `done[k]` is the answer for the `k`-th process polled, and the pending
    /// processes are polled from the last one to the first. The processes
    /// that are not finished stay pending; when none is left, a job that is
    /// `Running` or `Stopped` becomes `Done`. A job that is marked as waited,
    /// or has nothing pending, is left alone.
    pub fn settle_poll(&mut self, done: &Vec<bool>)
        requires
            old(self)@.is_waited || done@.len() == old(self)@.async_pids.len(),
        ensures
            final(self)@ == after_poll(old(self)@, done@),
            pending_within_stages(old(self)@) ==> pending_within_stages(final(self)@),
    {
        if self.is_waited || self.async_pids.len() == 0 {
            return ;
        }
        let order = self.polling_order();
        let n = order.len();
        let mut remain: Vec<i32> = Vec::new();
        let mut k: usize = 0;
        while k < n
            invariant
                k <= n,
                n == order@.len(),
                n == done@.len(),
                order@ == self.async_pids@.reverse(),
                remain@ == still_pending(order@.take(k as int), done@.take(k as int)),
                forall|i: int|
                    0 <= i < remain@.len() ==> self.async_pids@.contains(#[trigger] remain@[i]),
            decreases n - k,
        {
            proof {
                assert(order@.take(k + 1).drop_last() == order@.take(k as int));
                assert(done@.take(k + 1).drop_last() == done@.take(k as int));
                assert(order@[k as int] == self.async_pids@[n - 1 - k]);
            }
            if !done[k] {
                remain.push(order[k]);
            }
            k += 1;
        }
        proof {
            assert(order@.take(k as int) == order@);
            assert(done@.take(k as int) == done@);
        }
        if remain.len() == 0 {
            match self.status {
                JobState::Running => {
                    self.status = JobState::Done;
                },
                JobState::Stopped => {
                    self.status = JobState::Done;
                },
                _ => {},
            }
        }
        self.async_pids = remain;
    }

    /// Asks the system, without blocking, after every process of
    /// [`poll_order`], in that order, and hands back the reports. The job
    /// itself is not changed. The poll succeeds where no process is to be
    /// asked after; otherwise it fails only where a wait call fails. There is
    /// one report for each process asked after, and a report that names a
    /// process names the one that was asked after at its place.
    pub fn poll_pending(&self) -> (r: Result<Vec<WaitOutcome>, WaitError>)
        ensures
            polls_nothing(self@) ==> r is Ok,
            r matches Ok(reports) ==> answer_in_order(reports@, poll_order(self@)),
    {
        let order = self.polling_order();
        let mut reports: Vec<WaitOutcome> = Vec::new();
        let mut k: usize = 0;
        while k < order.len()
            invariant
                k <= order@.len(),
                order@ == poll_order(self@),
                answer_in_order(reports@, order@.take(k as int)),
            decreases order@.len() - k,
        {
            match wait_polling(order[k]) {
                Ok(outcome) => {
                    reports.push(outcome);
                },
                Err(e) => {
                    return Err(e);
                },
            }
            k += 1;
        }
        proof {
            assert(order@.take(k as int) =~= order@);
        }
        Ok(reports)
    }

    /// Polls the job as [`Job::poll_pending`] does and applies the answers as
    /// [`Job::settle_poll`] does. The reports are handed back in polling
    /// order. If a wait call fails, the job is left as it was and the failure
    /// is handed back; that cannot happen where no process is to be asked
    /// after.
    pub fn check_of_finish(&mut self) -> (r: Result<Vec<WaitOutcome>, WaitError>)
        ensures
            polls_nothing(old(self)@) ==> r is Ok,
            match r {
                Ok(reports) => {
                    &&& answer_in_order(reports@, poll_order(old(self)@))
                    &&& final(self)@ == after_poll(old(self)@, answers_of(reports@))
                },
                Err(_) => *final(self) == *old(self),
            },
            pending_within_stages(old(self)@) ==> pending_within_stages(final(self)@),
    {
        match self.poll_pending() {
            Ok(reports) => {
                let done = answers(&reports);
                self.settle_poll(&done);
                Ok(reports)
            },
            Err(e) => Err(e),
        }
    }

    /// Reports the status of the job. A `Done` job hands back its status
    /// line for the caller to print and becomes `Printed`. Any other job hands
    /// back nothing and stays as it is, so that a job is printed once.
    pub fn print_status(&mut self) -> (line: Option<String>)
        ensures
            final(self)@ == after_report(old(self)@),
            line is Some <==> is_reported(old(self)@),
            line matches Some(l) ==> l@ == status_line(old(self)@),
    {
        if self.status != JobState::Done {
            return None;
        }
        let line = self.status_string();
        self.status = JobState::Printed;
        Some(line)
    }
}

/// What stays pending after a poll was pending before it.
pub proof fn lemma_still_pending_subset(order: Seq<i32>, done: Seq<bool>)
    ensures
        forall|i: int|
            0 <= i < still_pending(order, done).len() ==> order.contains(
                #[trigger] still_pending(order, done)[i],
            ),
    decreases order.len(),
{
    if order.len() != 0 && done.len() == order.len() {
        lemma_still_pending_subset(order.drop_last(), done.drop_last());
        let rest = still_pending(order.drop_last(), done.drop_last());
        let all = still_pending(order, done);
        assert forall|i: int| 0 <= i < all.len() implies order.contains(#[trigger] all[i]) by {
            if i < rest.len() {
                assert(all[i] == rest[i]);
                let k = choose|k: int|
                    0 <= k < order.drop_last().len() && order.drop_last()[k] == rest[i];
                assert(order[k] == rest[i]);
            } else {
                assert(order[order.len() - 1] == all[i]);
            }
        }
    }
}

/// After a poll the pending processes of a job are among those that were
/// pending before.
pub proof fn lemma_poll_keeps_pending(job: JobView, done: Seq<bool>)
    requires
        pending_within_stages(job),
    ensures
        pending_within_stages(after_poll(job, done)),
{
    if !job.is_waited {
        lemma_still_pending_subset(job.async_pids.reverse(), done);
        let remain = after_poll(job, done).async_pids;
        assert forall|i: int| 0 <= i < remain.len() implies job.pids.contains(
            #[trigger] remain[i],
        ) by {
            assert(job.async_pids.reverse().contains(remain[i]));
            let k = choose|k: int|
                0 <= k < job.async_pids.reverse().len() && job.async_pids.reverse()[k]
                    == remain[i];
            assert(job.async_pids[job.async_pids.len() - 1 - k] == remain[i]);
        }
    }
}

} // verus!
