//! The job table: the foreground slot and the background jobs behind it,
//! with the rules by which jobs enter the table, change in it and leave it.

use crate::job::{
    after_poll, after_report, is_over, lemma_poll_keeps_pending, may_become, pending_within_stages,
    poll_order, status_line, JobState, JobView, RecencyMark,
};
use crate::wait::WaitOutcome;
use vstd::prelude::*;

verus! {

/// Whether at most one background job of the table is marked `Current`.
pub open spec fn at_most_one_current(jobs: Seq<JobView>) -> bool {
    forall|i: int, j: int|
        1 <= i < jobs.len() && 1 <= j < jobs.len() && (#[trigger] jobs[i]).mark
            == RecencyMark::Current && (#[trigger] jobs[j]).mark == RecencyMark::Current ==> i
            == j
}

/// Whether a job table is well formed: it has its foreground slot, and at
/// most one background job is marked `Current`.
pub open spec fn table_wf(jobs: Seq<JobView>) -> bool {
    &&& jobs.len() >= 1
    &&& at_most_one_current(jobs)
}

/// A job after a newer job took the mark `Current`: the job that was
/// `Current` is `Previous`, every other is `Other`.
pub open spec fn demoted(job: JobView) -> JobView {
    JobView {
        mark: if job.mark == RecencyMark::Current {
            RecencyMark::Previous
        } else {
            RecencyMark::Other
        },
        ..job
    }
}

/// The table after `added` was registered at its end. A job that comes
/// marked `Current` demotes every job that was in the table.
pub open spec fn after_add(jobs: Seq<JobView>, added: JobView) -> Seq<JobView> {
    if added.mark == RecencyMark::Current {
        jobs.map_values(|job: JobView| demoted(job)).push(added)
    } else {
        jobs.push(added)
    }
}

/// Whether the last report says that a stage was stopped.
pub open spec fn stop_fired(outcomes: Seq<WaitOutcome>) -> bool {
    outcomes.len() > 0 && outcomes.last() is Stopped
}

/// Whether `outcomes` can be what a foreground wait on a job of `stages`
/// stages observed: one report per stage, in stage order, ending early only
/// at the first stage that was stopped.
pub open spec fn reports_fit(outcomes: Seq<WaitOutcome>, stages: nat) -> bool {
    &&& outcomes.len() <= stages
    &&& forall|i: int| 0 <= i < outcomes.len() - 1 ==> !(#[trigger] outcomes[i] is Stopped)
    &&& outcomes.len() < stages ==> stop_fired(outcomes)
}

/// The foreground job turned into a stopped background job with the number
/// `number`: it is marked `Current`, and `pending` is added to the processes
/// that it still waits for.
pub open spec fn stopped_job(job: JobView, number: usize, pending: Seq<i32>) -> JobView {
    JobView {
        status: JobState::Stopped,
        id: number,
        mark: RecencyMark::Current,
        async_pids: job.async_pids + pending,
        ..job
    }
}

/// The table after a stage of the foreground job was stopped: the job in
/// the foreground slot becomes a stopped job, and a copy of it is registered
/// as the newest background job.
pub open spec fn after_stop(jobs: Seq<JobView>, pending: Seq<i32>) -> Seq<JobView>
    recommends
        jobs.len() >= 1,
{
    let stopped = stopped_job(jobs[0], jobs.len() as usize, pending);
    after_add(jobs.update(0, stopped), stopped)
}

/// The table after a foreground wait on the job `job_no` that observed
/// `outcomes`. A job that is `Done` or `Printed` already is not waited for
/// and stays as it is. If a stage
/// was stopped, that stage and the stages after it become the pending
/// processes of a stopped background job. Otherwise the job is `Done`.
pub open spec fn after_wait_jobs(
    jobs: Seq<JobView>,
    job_no: int,
    outcomes: Seq<WaitOutcome>,
) -> Seq<JobView>
    recommends
        0 <= job_no < jobs.len(),
{
    if is_over(jobs[job_no]) {
        jobs
    } else if stop_fired(outcomes) {
        after_stop(jobs, jobs[job_no].pids.skip(outcomes.len() - 1))
    } else {
        jobs.update(job_no, JobView { status: JobState::Done, ..jobs[job_no] })
    }
}

/// The number of answers that a poll of the job brings: one for each
/// process that it asks after.
pub open spec fn answers_due(job: JobView) -> nat {
    poll_order(job).len()
}

/// Whether `done` can be what a poll cycle over the table observed: for
/// each background job the answers of its pending processes, and nothing for
/// the foreground slot.
pub open spec fn answers_fit(jobs: Seq<JobView>, done: Seq<Seq<bool>>) -> bool {
    &&& done.len() == jobs.len()
    &&& jobs.len() >= 1 ==> done[0].len() == 0
    &&& forall|j: int| 1 <= j < jobs.len() ==> (#[trigger] done[j]).len() == answers_due(jobs[j])
}

/// The table after every background job was polled.
pub open spec fn after_polls(jobs: Seq<JobView>, done: Seq<Seq<bool>>) -> Seq<JobView> {
    Seq::new(
        jobs.len(),
        |j: int|
            if j >= 1 {
                after_poll(jobs[j], done[j])
            } else {
                jobs[j]
            },
    )
}

/// The table after the status of every background job that is `Done` was
/// reported.
pub open spec fn after_reports(jobs: Seq<JobView>) -> Seq<JobView> {
    Seq::new(
        jobs.len(),
        |j: int|
            if j >= 1 {
                after_report(jobs[j])
            } else {
                jobs[j]
            },
    )
}

/// The status lines of the background jobs that are `Done`, in table order.
pub open spec fn report_lines(jobs: Seq<JobView>) -> Seq<Seq<char>>
    decreases jobs.len(),
{
    if jobs.len() <= 1 {
        Seq::empty()
    } else {
        let rest = report_lines(jobs.drop_last());
        if jobs.last().status == JobState::Done {
            rest.push(status_line(jobs.last()))
        } else {
            rest
        }
    }
}

/// The table without the `Printed` jobs at its end: jobs are taken from the
/// end until a job that is not `Printed`, or the foreground slot, is reached.
pub open spec fn compacted(jobs: Seq<JobView>) -> Seq<JobView>
    decreases jobs.len(),
{
    if jobs.len() > 1 && jobs.last().status == JobState::Printed {
        compacted(jobs.drop_last())
    } else {
        jobs
    }
}

/// The table after one poll cycle that observed `done`.
pub open spec fn after_check(jobs: Seq<JobView>, done: Seq<Seq<bool>>) -> Seq<JobView> {
    compacted(after_reports(after_polls(jobs, done)))
}

/// A job as it is registered in the background with the number `number`:
/// it is marked `Current`, and every process of its stages is pending.
pub open spec fn registered(job: JobView, number: usize) -> JobView {
    JobView { id: number, mark: RecencyMark::Current, async_pids: job.pids, ..job }
}

/// The table after it took a job that a pipeline produced. A background
/// job is registered at the end of the table, with its index as its number;
/// a foreground job takes the foreground slot in place of what was there.
pub open spec fn after_accept(jobs: Seq<JobView>, job: JobView) -> Seq<JobView>
    recommends
        jobs.len() >= 1,
{
    if job.is_bg {
        after_add(jobs, registered(job, jobs.len() as usize))
    } else {
        jobs.update(0, job)
    }
}

/// Whether every pending process of every job of the table is one of the
/// stages of that job.
pub open spec fn pending_in_table(jobs: Seq<JobView>) -> bool {
    forall|j: int| 0 <= j < jobs.len() ==> pending_within_stages(#[trigger] jobs[j])
}

/// Registering a job keeps the table well formed. A job that comes marked
/// `Current` is then the only job with that mark: of the jobs that were in
/// the table, the one that was `Current` is `Previous`, every other is
/// `Other`, and nothing else about them has changed; so at most one
/// background job is `Previous`. A job that comes with another mark leaves
/// the jobs of the table as they were.
pub proof fn lemma_add_keeps_one_current(jobs: Seq<JobView>, added: JobView)
    requires
        table_wf(jobs),
    ensures
        table_wf(after_add(jobs, added)),
        after_add(jobs, added).len() == jobs.len() + 1,
        after_add(jobs, added).last() == added,
        added.mark == RecencyMark::Current ==> forall|i: int|
            0 <= i < jobs.len() ==> {
                &&& (#[trigger] after_add(jobs, added)[i]) == demoted(jobs[i])
                &&& after_add(jobs, added)[i].mark != RecencyMark::Current
                &&& (after_add(jobs, added)[i].mark == RecencyMark::Previous <==> jobs[i].mark
                    == RecencyMark::Current)
            },
        added.mark == RecencyMark::Current ==> forall|i: int, j: int|
            1 <= i < jobs.len() && 1 <= j < jobs.len() && (#[trigger] after_add(
                jobs,
                added,
            )[i]).mark == RecencyMark::Previous && (#[trigger] after_add(jobs, added)[j]).mark
                == RecencyMark::Previous ==> i == j,
        added.mark != RecencyMark::Current ==> forall|i: int|
            0 <= i < jobs.len() ==> (#[trigger] after_add(jobs, added)[i]) == jobs[i],
{
    if added.mark == RecencyMark::Current {
        let after = after_add(jobs, added);
        assert forall|i: int, j: int|
            1 <= i < jobs.len() && 1 <= j < jobs.len() && (#[trigger] after[i]).mark
                == RecencyMark::Previous && (#[trigger] after[j]).mark
                == RecencyMark::Previous implies i == j by {
            assert(jobs[i].mark == RecencyMark::Current);
            assert(jobs[j].mark == RecencyMark::Current);
        }
    }
}

/// A stop of the foreground job keeps the table well formed: the stopped
/// job that is registered is the only background job marked `Current`.
pub proof fn lemma_stop_keeps_table(jobs: Seq<JobView>, pending: Seq<i32>)
    requires
        table_wf(jobs),
    ensures
        table_wf(after_stop(jobs, pending)),
        after_stop(jobs, pending).len() == jobs.len() + 1,
        after_stop(jobs, pending).last().mark == RecencyMark::Current,
        after_stop(jobs, pending).last().status == JobState::Stopped,
{
    let stopped = stopped_job(jobs[0], jobs.len() as usize, pending);
    let slotted = jobs.update(0, stopped);
    assert forall|i: int, j: int|
        1 <= i < slotted.len() && 1 <= j < slotted.len() && (#[trigger] slotted[i]).mark
            == RecencyMark::Current && (#[trigger] slotted[j]).mark
            == RecencyMark::Current implies i == j by {
        assert(slotted[i] == jobs[i]);
        assert(slotted[j] == jobs[j]);
    }
    lemma_add_keeps_one_current(slotted, stopped);
}

/// A foreground wait keeps the table well formed.
pub proof fn lemma_wait_keeps_table(jobs: Seq<JobView>, job_no: int, outcomes: Seq<WaitOutcome>)
    requires
        table_wf(jobs),
        0 <= job_no < jobs.len(),
    ensures
        table_wf(after_wait_jobs(jobs, job_no, outcomes)),
{
    let waited = after_wait_jobs(jobs, job_no, outcomes);
    if is_over(jobs[job_no]) {
    } else if stop_fired(outcomes) {
        lemma_stop_keeps_table(jobs, jobs[job_no].pids.skip(outcomes.len() - 1));
    } else {
        assert forall|i: int, j: int|
            1 <= i < waited.len() && 1 <= j < waited.len() && (#[trigger] waited[i]).mark
                == RecencyMark::Current && (#[trigger] waited[j]).mark
                == RecencyMark::Current implies i == j by {
            assert(waited[i].mark == jobs[i].mark);
            assert(waited[j].mark == jobs[j].mark);
        }
    }
}

/// A poll cycle keeps the table well formed.
pub proof fn lemma_check_keeps_table(jobs: Seq<JobView>, done: Seq<Seq<bool>>)
    requires
        table_wf(jobs),
    ensures
        table_wf(after_check(jobs, done)),
{
    let reported = after_reports(after_polls(jobs, done));
    lemma_compaction_keeps_unprinted(reported);
    let checked = after_check(jobs, done);
    assert forall|i: int, j: int|
        1 <= i < checked.len() && 1 <= j < checked.len() && (#[trigger] checked[i]).mark
            == RecencyMark::Current && (#[trigger] checked[j]).mark
            == RecencyMark::Current implies i == j by {
        assert(checked[i] == reported[i]);
        assert(checked[j] == reported[j]);
        assert(reported[i].mark == jobs[i].mark);
        assert(reported[j].mark == jobs[j].mark);
    }
}

/// Taking a job into the table keeps the table well formed: a background
/// job becomes the only job marked `Current`, a foreground job changes no
/// background job.
pub proof fn lemma_accept_keeps_table(jobs: Seq<JobView>, job: JobView)
    requires
        table_wf(jobs),
    ensures
        table_wf(after_accept(jobs, job)),
{
    let accepted = after_accept(jobs, job);
    if job.is_bg {
        lemma_add_keeps_one_current(jobs, registered(job, jobs.len() as usize));
    } else {
        assert forall|i: int, j: int|
            1 <= i < accepted.len() && 1 <= j < accepted.len() && (#[trigger] accepted[i]).mark
                == RecencyMark::Current && (#[trigger] accepted[j]).mark
                == RecencyMark::Current implies i == j by {
            assert(accepted[i] == jobs[i]);
            assert(accepted[j] == jobs[j]);
        }
    }
}

/// Compaction only drops `Printed` jobs from the end of the table: what is
/// left is a prefix of the table, every job that is not `Printed`, a
/// `Stopped` one among them, keeps its place, whatever stands behind it, and
/// the foreground slot is never dropped.
pub proof fn lemma_compaction_keeps_unprinted(jobs: Seq<JobView>)
    ensures
        compacted(jobs).len() <= jobs.len(),
        compacted(jobs) == jobs.take(compacted(jobs).len() as int),
        jobs.len() >= 1 ==> compacted(jobs).len() >= 1,
        forall|i: int|
            0 <= i < jobs.len() && (#[trigger] jobs[i]).status != JobState::Printed ==> i
                < compacted(jobs).len() && compacted(jobs)[i] == jobs[i],
        forall|i: int|
            compacted(jobs).len() <= i < jobs.len() ==> (#[trigger] jobs[i]).status
                == JobState::Printed,
        compacted(jobs).len() > 1 ==> compacted(jobs).last().status != JobState::Printed,
    decreases jobs.len(),
{
    if jobs.len() > 1 && jobs.last().status == JobState::Printed {
        let shorter = jobs.drop_last();
        lemma_compaction_keeps_unprinted(shorter);
        assert(shorter.take(compacted(jobs).len() as int) =~= jobs.take(
            compacted(jobs).len() as int,
        ));
        assert forall|i: int|
            0 <= i < jobs.len() && (#[trigger] jobs[i]).status
                != JobState::Printed implies i < compacted(jobs).len() && compacted(jobs)[i]
            == jobs[i] by {
            assert(shorter[i] == jobs[i]);
        }
        assert forall|i: int| compacted(jobs).len() <= i < jobs.len() implies (#[trigger] jobs[i]).status
            == JobState::Printed by {
            if i < shorter.len() {
                assert(shorter[i] == jobs[i]);
            }
        }
    } else {
        assert(jobs.take(jobs.len() as int) =~= jobs);
    }
}

/// A job without stages is `Done` as soon as it is waited for in the
/// foreground, if it was not `Printed` before: no stage is waited for, since
/// reports that fit such a job are none. The poll cycle never asks after it
/// either, as it has nothing pending.
pub proof fn lemma_job_without_stages(
    jobs: Seq<JobView>,
    job_no: int,
    outcomes: Seq<WaitOutcome>,
    done: Seq<bool>,
)
    requires
        0 <= job_no < jobs.len(),
        jobs[job_no].pids.len() == 0,
        pending_within_stages(jobs[job_no]),
        reports_fit(outcomes, 0),
    ensures
        outcomes.len() == 0,
        jobs[job_no].status != JobState::Printed ==> after_wait_jobs(
            jobs,
            job_no,
            outcomes,
        )[job_no].status == JobState::Done,
        is_over(after_wait_jobs(jobs, job_no, outcomes)[job_no]),
        after_wait_jobs(jobs, job_no, outcomes).len() == jobs.len(),
        answers_due(jobs[job_no]) == 0,
        after_poll(jobs[job_no], done) == jobs[job_no],
{
    if jobs[job_no].async_pids.len() > 0 {
        assert(jobs[job_no].pids.contains(jobs[job_no].async_pids[0]));
    }
}

/// The wait engine moves every job along its lifecycle only. In a poll
/// cycle each job passes to a state that may follow its state when it is
/// polled, and again when it is reported; a `Printed` job stays `Printed`,
/// and compaction changes no state. A foreground wait leaves the job that is
/// waited for `Done`, or `Stopped` where a stage was stopped, unless the job
/// had run to its end, and changes the state of no other job of the table
/// but the foreground slot, which a stop leaves `Stopped`.
pub proof fn lemma_table_follows_lifecycle(
    jobs: Seq<JobView>,
    job_no: int,
    outcomes: Seq<WaitOutcome>,
    done: Seq<Seq<bool>>,
)
    requires
        0 <= job_no < jobs.len(),
    ensures
        forall|j: int|
            0 <= j < jobs.len() ==> may_become(
                jobs[j].status,
                (#[trigger] after_polls(jobs, done)[j]).status,
            ),
        forall|j: int|
            0 <= j < jobs.len() ==> may_become(
                after_polls(jobs, done)[j].status,
                (#[trigger] after_reports(after_polls(jobs, done))[j]).status,
            ),
        forall|j: int|
            0 <= j < after_check(jobs, done).len() ==> (#[trigger] after_check(jobs, done)[j])
                == after_reports(after_polls(jobs, done))[j],
        forall|j: int|
            0 <= j < jobs.len() && (j != 0 || job_no == 0 || !is_over(jobs[0])) ==> may_become(
                jobs[j].status,
                (#[trigger] after_wait_jobs(jobs, job_no, outcomes)[j]).status,
            ),
{
    let reported = after_reports(after_polls(jobs, done));
    lemma_compaction_keeps_unprinted(reported);
    let waited = after_wait_jobs(jobs, job_no, outcomes);
    assert forall|j: int|
        0 <= j < jobs.len() && (j != 0 || job_no == 0 || !is_over(jobs[0])) implies may_become(
        jobs[j].status,
        (#[trigger] waited[j]).status,
    ) by {
        if !is_over(jobs[job_no]) && stop_fired(outcomes) {
            let pending = jobs[job_no].pids.skip(outcomes.len() - 1);
            let stopped = stopped_job(jobs[0], jobs.len() as usize, pending);
            assert(waited[j] == demoted(jobs.update(0, stopped)[j]));
        }
    }
}

/// The pending processes of every job stay among its stages when the table
/// takes a job, when the job in the foreground slot is waited for, and in a
/// poll cycle.
pub proof fn lemma_table_keeps_pending(
    jobs: Seq<JobView>,
    job: JobView,
    outcomes: Seq<WaitOutcome>,
    done: Seq<Seq<bool>>,
)
    requires
        jobs.len() >= 1,
        pending_in_table(jobs),
        pending_within_stages(job),
    ensures
        pending_in_table(after_accept(jobs, job)),
        reports_fit(outcomes, jobs[0].pids.len()) ==> pending_in_table(
            after_wait_jobs(jobs, 0, outcomes),
        ),
        pending_in_table(after_check(jobs, done)),
{
    let accepted = after_accept(jobs, job);
    assert forall|j: int| 0 <= j < accepted.len() implies pending_within_stages(
        #[trigger] accepted[j],
    ) by {
        if job.is_bg {
            if j < jobs.len() {
                assert(accepted[j] == demoted(jobs[j]));
                assert(pending_within_stages(jobs[j]));
            } else {
                let r = registered(job, jobs.len() as usize);
                assert forall|i: int| 0 <= i < r.async_pids.len() implies r.pids.contains(
                    #[trigger] r.async_pids[i],
                ) by {
                    assert(r.pids[i] == r.async_pids[i]);
                }
            }
        } else {
            if j > 0 {
                assert(pending_within_stages(jobs[j]));
            }
        }
    }
    if reports_fit(outcomes, jobs[0].pids.len()) {
        let waited = after_wait_jobs(jobs, 0, outcomes);
        assert forall|j: int| 0 <= j < waited.len() implies pending_within_stages(
            #[trigger] waited[j],
        ) by {
            if !is_over(jobs[0]) && stop_fired(outcomes) {
                let pending = jobs[0].pids.skip(outcomes.len() - 1);
                let stopped = stopped_job(jobs[0], jobs.len() as usize, pending);
                assert(pending_within_stages(jobs[0]));
                assert forall|i: int|
                    0 <= i < stopped.async_pids.len() implies stopped.pids.contains(
                    #[trigger] stopped.async_pids[i],
                ) by {
                    if i < jobs[0].async_pids.len() {
                        assert(stopped.async_pids[i] == jobs[0].async_pids[i]);
                    } else {
                        let k = i - jobs[0].async_pids.len();
                        assert(stopped.async_pids[i] == jobs[0].pids[k + outcomes.len() - 1]);
                    }
                }
                if j < jobs.len() {
                    assert(waited[j] == demoted(jobs.update(0, stopped)[j]));
                    if j > 0 {
                        assert(pending_within_stages(jobs[j]));
                    }
                }
            } else if j < jobs.len() {
                assert(pending_within_stages(jobs[j]));
            }
        }
    }
    let reported = after_reports(after_polls(jobs, done));
    lemma_compaction_keeps_unprinted(reported);
    let checked = after_check(jobs, done);
    assert forall|j: int| 0 <= j < checked.len() implies pending_within_stages(
        #[trigger] checked[j],
    ) by {
        assert(checked[j] == reported[j]);
        assert(pending_within_stages(jobs[j]));
        if j >= 1 && jobs[j].async_pids.len() != 0 {
            lemma_poll_keeps_pending(jobs[j], done[j]);
        }
    }
}

} // verus!
