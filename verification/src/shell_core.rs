//! The state of a shell session: its variables and its job table, and the
//! wait engine that is the only writer of job states and exit statuses.

use crate::job::{
    is_over, poll_order, polls_nothing, status_line, Job, JobState, JobView, RecencyMark,
};
use crate::job_table::{
    after_accept, after_add, after_check, after_polls, after_reports, after_stop,
    after_wait_jobs, answers_due, answers_fit, compacted, demoted, lemma_accept_keeps_table,
    lemma_add_keeps_one_current, lemma_check_keeps_table, lemma_stop_keeps_table,
    lemma_wait_keeps_table, report_lines, reports_fit, stop_fired, stopped_job, table_wf,
};
use crate::text::{
    chars_of, contains_char, decimal, decimal_string, fields_of, i32_value, index_value, is_char, is_field,
    join_fields, join_from, lemma_decimal_is_field, lemma_fields_of_join, parse_i32, parse_index,
    push_decimal, texts,
};
use crate::wait::{
    answer_in_order, answers, answers_for, answers_of, exit_status, exit_status_of, finished,
    wait_blocking, wait_polling, WaitError, WaitOutcome,
};
use vstd::hash_map::StringHashMap;
use vstd::prelude::*;

verus! {

/// The state of a shell session.
pub struct ShellCore {
    /// The bodies of the functions that were defined, by name.
    pub functions: StringHashMap<String>,
    /// The array variables, by name.
    pub arrays: StringHashMap<Vec<String>>,
    /// The variables, among them `?` and `PIPESTATUS`.
    pub vars: StringHashMap<String>,
    /// The positional parameters; `args[0]` is the name of the shell.
    pub args: Vec<String>,
    /// The aliases, by name.
    pub aliases: StringHashMap<String>,
    /// The lines that were read so far.
    pub history: Vec<String>,
    /// The option letters that are switched on.
    pub flags: String,
    /// The job table. `jobs[0]` is the foreground slot, the jobs after it
    /// are the background jobs in the order in which they were registered.
    pub jobs: Vec<Job>,
    /// Whether expansion currently happens inside double quotes.
    pub in_double_quot: bool,
    /// The operator that ended the last pipeline.
    pub pipeline_end: String,
    /// Whether `return` is allowed where the shell stands.
    pub return_enable: bool,
    /// Whether a `return` is under way.
    pub return_flag: bool,
    /// The environment of the process as the caller last read it; it is
    /// consulted for a name that is no variable of the shell.
    pub env: StringHashMap<String>,
}

/// The name of the variable that holds the last exit status.
pub open spec fn status_var() -> Seq<char> {
    seq!['?']
}

/// The name of the variable that holds the status of every stage.
pub open spec fn pipestatus_var() -> Seq<char> {
    "PIPESTATUS"@
}

/// The numerals of the exit statuses that the reports stand for.
pub open spec fn status_numerals(outcomes: Seq<WaitOutcome>) -> Seq<Seq<char>> {
    outcomes.map_values(|outcome: WaitOutcome| decimal(exit_status_of(outcome)))
}

/// The variables after a foreground wait that observed `outcomes`: `?`
/// holds the status of the last stage waited for, `PIPESTATUS` the statuses
/// of all of them, in stage order, with one blank between neighbours.
pub open spec fn after_wait_vars(
    vars: Map<Seq<char>, Seq<char>>,
    outcomes: Seq<WaitOutcome>,
) -> Map<Seq<char>, Seq<char>> {
    let with_status = if outcomes.len() > 0 {
        vars.insert(status_var(), decimal(exit_status_of(outcomes.last())))
    } else {
        vars
    };
    with_status.insert(pipestatus_var(), join_fields(status_numerals(outcomes), ' '))
}

/// Whether a foreground wait on the job waits for no process: the job has
/// run to its end already, or it has no stages. Such a wait cannot fail.
pub open spec fn waits_for_nothing(job: JobView) -> bool {
    is_over(job) || job.pids.len() == 0
}

/// Whether a poll cycle over the table asks the system after no process:
/// no background job has a process that a poll would ask after. Such a cycle
/// cannot fail.
pub open spec fn cycle_polls_nothing(jobs: Seq<JobView>) -> bool {
    forall|j: int| 1 <= j < jobs.len() ==> polls_nothing(#[trigger] jobs[j])
}

/// The processes that a stopped job still waits for after the report of a
/// wait on one process: the process that a report of a stop names.
pub open spec fn stopped_pids(outcome: WaitOutcome) -> Seq<i32> {
    match outcome {
        WaitOutcome::Stopped(pid, _) => seq![pid],
        _ => Seq::empty(),
    }
}

/// What a wait on one process brought: the report of the system, and the
/// status line to print if the process was stopped.
pub struct ProcessReport {
    pub outcome: WaitOutcome,
    pub status_line: Option<String>,
}

/// What a foreground wait on a job brought: the report of the system for
/// each stage waited for, in stage order, and the status line to print if
/// a stage was stopped.
pub struct JobReport {
    pub outcomes: Vec<WaitOutcome>,
    pub status_line: Option<String>,
}

/// What one poll cycle brought: for each job of the table the reports on
/// the processes that were asked after, in polling order, and the status
/// lines to print.
pub struct PollReport {
    pub reports: Vec<Vec<WaitOutcome>>,
    pub lines: Vec<String>,
}

/// The answers that the reports of a poll cycle give, job by job.
pub open spec fn cycle_answers(reports: Seq<Vec<WaitOutcome>>) -> Seq<Seq<bool>> {
    reports.map_values(|of_job: Vec<WaitOutcome>| answers_of(of_job@))
}

/// The processes that a poll cycle asks after for the job `j` of the table,
/// in the order in which it asks: none for the foreground slot, and for a
/// background job what [`poll_order`] says.
pub open spec fn cycle_order(jobs: Seq<JobView>, j: int) -> Seq<i32> {
    if j >= 1 {
        poll_order(jobs[j])
    } else {
        Seq::empty()
    }
}

/// The answers of a poll cycle, job by job.
pub open spec fn answers_view(answers: Seq<Vec<bool>>) -> Seq<Seq<bool>> {
    answers.map_values(|done: Vec<bool>| done@)
}

/// The variables after a poll of the child of a command substitution: the
/// status of a child that exited or was killed becomes `?`, any other report
/// leaves the variables alone.
pub open spec fn after_pipe_poll(
    vars: Map<Seq<char>, Seq<char>>,
    outcome: WaitOutcome,
) -> Map<Seq<char>, Seq<char>> {
    match outcome {
        WaitOutcome::Exited(_, _) => vars.insert(status_var(), decimal(exit_status_of(outcome))),
        WaitOutcome::Signaled(_, _, _) => vars.insert(
            status_var(),
            decimal(exit_status_of(outcome)),
        ),
        _ => vars,
    }
}

impl ShellCore {
    /// The variables as a map from name to value.
    pub open spec fn vars_view(&self) -> Map<Seq<char>, Seq<char>> {
        self.vars@.map_values(|value: String| value@)
    }

    /// The job table as a sequence of job values.
    pub open spec fn jobs_view(&self) -> Seq<JobView> {
        self.jobs@.map_values(|job: Job| job@)
    }

    /// Whether the session is well formed: so is its job table.
    pub open spec fn wf(&self) -> bool {
        table_wf(self.jobs_view())
    }

    /// Whether everything but the variables and the job table is the same in
    /// both sessions.
    pub open spec fn same_settings(&self, other: &ShellCore) -> bool {
        &&& self.functions == other.functions
        &&& self.arrays == other.arrays
        &&& self.args == other.args
        &&& self.aliases == other.aliases
        &&& self.history == other.history
        &&& self.flags == other.flags
        &&& self.in_double_quot == other.in_double_quot
        &&& self.pipeline_end == other.pipeline_end
        &&& self.return_enable == other.return_enable
        &&& self.return_flag == other.return_flag
        &&& self.env == other.env
    }

    /// The value that a plain name stands for: that of the shell variable
    /// of that name, else that of the environment, else the empty text.
    pub open spec fn lookup(&self, key: Seq<char>) -> Seq<char> {
        if self.vars@.contains_key(key) {
            self.vars@[key]@
        } else if self.env@.contains_key(key) {
            self.env@[key]@
        } else {
            Seq::empty()
        }
    }

    /// The positional parameters after the name of the shell, joined with
    /// `sep`; empty where there is none.
    pub open spec fn joined_args(&self, sep: char) -> Seq<char> {
        join_fields(texts(self.args@.skip(1)), sep)
    }

    /// The value that `key` stands for. An index below the number of
    /// positional parameters stands for that parameter; `-` for the option
    /// letters; `#` for the number of positional parameters after the name of
    /// the shell; `@` for those parameters joined with blanks; `*` for the
    /// same, but joined with the first character of `IFS` inside double
    /// quotes where `IFS` is not empty; any other name for what
    /// [`ShellCore::lookup`] gives.
    pub open spec fn value_of(&self, key: Seq<char>) -> Seq<char> {
        if index_value(key) is Some && index_value(key)->0 < self.args@.len() {
            self.args@[index_value(key)->0 as int]@
        } else if key == seq!['-'] {
            self.flags@
        } else if key == seq!['#'] {
            decimal(self.args@.len() - 1)
        } else if key == seq!['@'] {
            self.joined_args(' ')
        } else if key == seq!['*'] {
            if self.args@.len() > 1 && self.in_double_quot && self.lookup("IFS"@).len() > 0 {
                self.joined_args(self.lookup("IFS"@)[0])
            } else {
                self.joined_args(' ')
            }
        } else {
            self.lookup(key)
        }
    }

    /// A fresh session: `?` is `0`, and the job table holds an empty job in
    /// its foreground slot.
    pub fn new() -> (core: ShellCore)
        ensures
            core.wf(),
            core.vars_view() == Map::<Seq<char>, Seq<char>>::empty().insert(status_var(), seq!['0']),
            core.jobs_view().len() == 1,
            core.jobs_view()[0] == (JobView {
                pids: Seq::empty(),
                async_pids: Seq::empty(),
                text: Seq::empty(),
                status: JobState::Running,
                is_bg: false,
                is_waited: false,
                id: 0,
                mark: RecencyMark::Other,
            }),
            core.functions@ == Map::<Seq<char>, String>::empty(),
            core.arrays@ == Map::<Seq<char>, Vec<String>>::empty(),
            core.args@ == Seq::<String>::empty(),
            core.aliases@ == Map::<Seq<char>, String>::empty(),
            core.history@ == Seq::<String>::empty(),
            core.flags@ == Seq::<char>::empty(),
            !core.in_double_quot,
            core.pipeline_end@ == Seq::<char>::empty(),
            !core.return_enable,
            !core.return_flag,
            core.env@ == Map::<Seq<char>, String>::empty(),
    {
        let reported: Vec<Option<i32>> = Vec::new();
        let mut jobs: Vec<Job> = Vec::new();
        jobs.push(Job::new(&String::new(), &reported, false));
        let mut core = ShellCore {
            functions: StringHashMap::new(),
            arrays: StringHashMap::new(),
            vars: StringHashMap::new(),
            args: Vec::new(),
            aliases: StringHashMap::new(),
            history: Vec::new(),
            flags: String::new(),
            jobs: jobs,
            in_double_quot: false,
            pipeline_end: String::new(),
            return_enable: false,
            return_flag: false,
            env: StringHashMap::new(),
        };
        core.set_var("?", "0");
        proof {
            reveal_strlit("?");
            reveal_strlit("0");
            assert("?"@ =~= status_var());
            assert("0"@ =~= seq!['0']);
            assert(core.vars_view() =~= Map::<Seq<char>, Seq<char>>::empty().insert(
                status_var(),
                seq!['0'],
            ));
        }
        core
    }

    /// Sets the variable `key` to `value`, replacing what it held.
    pub fn set_var(&mut self, key: &str, value: &str)
        ensures
            final(self).vars_view() == old(self).vars_view().insert(key@, value@),
            final(self).jobs == old(self).jobs,
            old(self).wf() ==> final(self).wf(),
            final(self).same_settings(old(self)),
    {
        self.vars.insert(String::from_str(key), String::from_str(value));
        proof {
            assert(final(self).vars_view() =~= old(self).vars_view().insert(key@, value@));
        }
    }

    /// The value of a plain name, as [`ShellCore::lookup`] defines it.
    fn lookup_value(&self, key: &str) -> (value: String)
        ensures
            value@ == self.lookup(key@),
    {
        match self.vars.get(key) {
            Some(value) => value.clone(),
            None => match self.env.get(key) {
                Some(value) => value.clone(),
                None => String::new(),
            },
        }
    }

    /// The value that `key` stands for, as [`ShellCore::value_of`] defines
    /// it. The special names `#`, `@` and `*` need the name of the shell among
    /// the positional parameters.
    pub fn get_var(&self, key: &str) -> (value: String)
        requires
            self.args@.len() >= 1 || !(key@ == seq!['#'] || key@ == seq!['@'] || key@ == seq!['*']),
        ensures
            value@ == self.value_of(key@),
    {
        let count = self.args.len();
        match parse_index(key) {
            Some(n) => {
                if count > n {
                    return self.args[n].clone();
                }
            },
            None => {},
        }
        if is_char(key, '-') {
            return self.flags.clone();
        }
        if is_char(key, '#') {
            let mut count = String::new();
            push_decimal(&mut count, (self.args.len() - 1) as u64);
            return count;
        }
        if is_char(key, '@') {
            proof {
                if self.args@.len() == 1 {
                    assert(self.args@.skip(1).len() == 0);
                }
            }
            if self.args.len() == 1 {
                return String::new();
            }
            return join_from(&self.args, 1, ' ');
        }
        if is_char(key, '*') {
            proof {
                if self.args@.len() == 1 {
                    assert(self.args@.skip(1).len() == 0);
                }
            }
            if self.args.len() == 1 {
                return String::new();
            }
            if self.in_double_quot {
                let ifs = self.lookup_value("IFS");
                if ifs.as_str().unicode_len() > 0 {
                    return join_from(&self.args, 1, ifs.as_str().get_char(0));
                }
            }
            return join_from(&self.args, 1, ' ');
        }
        self.lookup_value(key)
    }

    /// The body of the function `name`, if one was defined.
    pub fn get_function(&self, name: &String) -> (body: Option<String>)
        ensures
            match body {
                Some(text) => self.functions@.contains_key(name@) && text@
                    == self.functions@[name@]@,
                None => !self.functions@.contains_key(name@),
            },
    {
        match self.functions.get(name.as_str()) {
            Some(text) => Some(text.clone()),
            None => None,
        }
    }

    /// Whether the option letter `flag` is switched on.
    pub fn has_flag(&self, flag: char) -> (on: bool)
        ensures
            on == self.flags@.contains(flag),
    {
        let letters = chars_of(self.flags.as_str());
        contains_char(&letters, flag)
    }

    /// Turns the job in the foreground slot into a stopped background job
    /// that still waits for `pending`, registers a copy of it as the newest
    /// background job, marked `Current`, and hands back its status line.
    pub fn record_stop(&mut self, pending: &Vec<i32>) -> (line: String)
        requires
            old(self).jobs@.len() >= 1,
        ensures
            final(self).jobs_view() == after_stop(old(self).jobs_view(), pending@),
            line@ == status_line(
                stopped_job(old(self).jobs_view()[0], old(self).jobs@.len() as usize, pending@),
            ),
            final(self).vars == old(self).vars,
            old(self).wf() ==> final(self).wf(),
            final(self).same_settings(old(self)),
    {
        let number = self.jobs.len();
        self.jobs[0].status = JobState::Stopped;
        self.jobs[0].id = number;
        self.jobs[0].mark = RecencyMark::Current;
        let mut i: usize = 0;
        while i < pending.len()
            invariant
                i <= pending.len(),
                self.jobs@.len() == number,
                number >= 1,
                self.vars == old(self).vars,
                self.same_settings(old(self)),
                forall|k: int| 1 <= k < number ==> #[trigger] self.jobs@[k] == old(self).jobs@[k],
                self.jobs@[0]@ == stopped_job(
                    old(self).jobs@[0]@,
                    number,
                    pending@.take(i as int),
                ),
            decreases pending.len() - i,
        {
            self.jobs[0].async_pids.push(pending[i]);
            proof {
                assert(pending@.take(i + 1) == pending@.take(i as int).push(pending@[i as int]));
                assert(self.jobs@[0]@.async_pids =~= old(self).jobs@[0]@.async_pids
                    + pending@.take(i + 1));
            }
            i += 1;
        }
        proof {
            assert(pending@.take(i as int) == pending@);
        }
        let line = self.jobs[0].status_string();
        let copy = self.jobs[0].duplicate();
        proof {
            assert(self.jobs_view() =~= old(self).jobs_view().update(0, copy@));
            if old(self).wf() {
                lemma_stop_keeps_table(old(self).jobs_view(), pending@);
            }
        }
        self.add_bg_job(copy);
        line
    }

    /// Records what a blocking wait on a process reported: `?` becomes the
    /// exit status that the report stands for. If the process was stopped, the
    /// foreground job becomes a stopped background job that still waits for
    /// the process that the report names, and its status line is handed back.
    pub fn record_wait(&mut self, outcome: &WaitOutcome) -> (line: Option<String>)
        requires
            old(self).jobs@.len() >= 1,
        ensures
            final(self).vars_view() == old(self).vars_view().insert(
                status_var(),
                decimal(exit_status_of(*outcome)),
            ),
            final(self).jobs_view() == if *outcome is Stopped {
                after_stop(old(self).jobs_view(), stopped_pids(*outcome))
            } else {
                old(self).jobs_view()
            },
            line is Some <==> *outcome is Stopped,
            line matches Some(l) ==> l@ == status_line(
                stopped_job(
                    old(self).jobs_view()[0],
                    old(self).jobs@.len() as usize,
                    stopped_pids(*outcome),
                ),
            ),
            old(self).wf() ==> final(self).wf(),
            final(self).same_settings(old(self)),
    {
        let status = decimal_string(exit_status(outcome));
        let line = match outcome {
            WaitOutcome::Stopped(pid, _) => {
                let mut pending: Vec<i32> = Vec::new();
                pending.push(*pid);
                proof {
                    assert(pending@ =~= stopped_pids(*outcome));
                }
                Some(self.record_stop(&pending))
            },
            _ => None,
        };
        proof {
            reveal_strlit("?");
            assert("?"@ =~= status_var());
        }
        self.set_var("?", status.as_str());
        line
    }

    /// Waits until the process `child` exits, is killed or is stopped, and
    /// records the report as [`ShellCore::record_wait`] does. A report that
    /// names a process names `child`, where `child` is above 0. If the wait
    /// call itself fails, the session is left as it was and the failure is
    /// handed back.
    pub fn wait_process(&mut self, child: i32) -> (r: Result<ProcessReport, WaitError>)
        requires
            old(self).jobs@.len() >= 1,
        ensures
            match r {
                Ok(report) => {
                    &&& report.outcome != WaitOutcome::StillAlive
                    &&& answers_for(report.outcome, child)
                    &&& final(self).vars_view() == old(self).vars_view().insert(
                        status_var(),
                        decimal(exit_status_of(report.outcome)),
                    )
                    &&& final(self).jobs_view() == if report.outcome is Stopped {
                        after_stop(old(self).jobs_view(), stopped_pids(report.outcome))
                    } else {
                        old(self).jobs_view()
                    }
                    &&& report.status_line is Some <==> report.outcome is Stopped
                    &&& report.status_line matches Some(l) ==> l@ == status_line(
                        stopped_job(
                            old(self).jobs_view()[0],
                            old(self).jobs@.len() as usize,
                            stopped_pids(report.outcome),
                        ),
                    )
                    &&& final(self).same_settings(old(self))
                },
                Err(_) => *final(self) == *old(self),
            },
            old(self).wf() ==> final(self).wf(),
    {
        match wait_blocking(child) {
            Ok(outcome) => {
                let status_line = self.record_wait(&outcome);
                Ok(ProcessReport { outcome: outcome, status_line: status_line })
            },
            Err(e) => Err(e),
        }
    }

    /// Records what a foreground wait on the job `job_no` observed. A job
    /// that is `Done` or `Printed` already is left alone. Otherwise `PIPESTATUS` holds the
    /// exit status of every stage waited for, in stage order, and `?` the
    /// status of the last of them. If the last report says that a stage was
    /// stopped, that stage and the stages after it become the pending
    /// processes of a stopped background job, whose status line is handed
    /// back; otherwise the job becomes `Done`.
    pub fn settle_job(&mut self, job_no: usize, outcomes: &Vec<WaitOutcome>) -> (line: Option<
        String,
    >)
        requires
            job_no < old(self).jobs@.len(),
            !is_over(old(self).jobs@[job_no as int]@) ==> reports_fit(
                outcomes@,
                old(self).jobs@[job_no as int]@.pids.len(),
            ),
        ensures
            final(self).jobs_view() == after_wait_jobs(
                old(self).jobs_view(),
                job_no as int,
                outcomes@,
            ),
            final(self).vars_view() == if is_over(old(self).jobs_view()[job_no as int]) {
                old(self).vars_view()
            } else {
                after_wait_vars(old(self).vars_view(), outcomes@)
            },
            line is Some <==> !is_over(old(self).jobs_view()[job_no as int])
                && stop_fired(outcomes@),
            line matches Some(l) ==> l@ == status_line(
                stopped_job(
                    old(self).jobs_view()[0],
                    old(self).jobs@.len() as usize,
                    old(self).jobs_view()[job_no as int].pids.skip(outcomes@.len() - 1),
                ),
            ),
            old(self).wf() ==> final(self).wf(),
            final(self).same_settings(old(self)),
    {
        if self.jobs[job_no].over() {
            return None;
        }
        let n = outcomes.len();
        let mut fields = String::new();
        let mut i: usize = 0;
        while i < n
            invariant
                i <= n,
                n == outcomes@.len(),
                fields@ == join_fields(status_numerals(outcomes@.take(i as int)), ' '),
            decreases n - i,
        {
            proof {
                let upto = status_numerals(outcomes@.take(i as int));
                let next = status_numerals(outcomes@.take(i + 1));
                assert(next.drop_last() =~= upto);
                assert(next.last() == decimal(exit_status_of(outcomes@[i as int])));
            }
            if i > 0 {
                fields.push(' ');
            }
            let numeral = decimal_string(exit_status(&outcomes[i]));
            fields.append(numeral.as_str());
            i += 1;
        }
        proof {
            assert(outcomes@.take(n as int) == outcomes@);
            reveal_strlit("?");
            assert("?"@ =~= status_var());
        }
        if n > 0 {
            let last = decimal_string(exit_status(&outcomes[n - 1]));
            self.set_var("?", last.as_str());
        }
        self.set_var("PIPESTATUS", fields.as_str());
        let stopped = n > 0 && match outcomes[n - 1] {
            WaitOutcome::Stopped(_, _) => true,
            _ => false,
        };
        if stopped {
            let mut pending: Vec<i32> = Vec::new();
            let total = self.jobs[job_no].pids.len();
            let mut k: usize = n - 1;
            while k < total
                invariant
                    1 <= n <= total,
                    n - 1 <= k <= total,
                    job_no < self.jobs@.len(),
                    total == self.jobs@[job_no as int].pids@.len(),
                    pending@ == self.jobs@[job_no as int].pids@.subrange(n - 1, k as int),
                decreases total - k,
            {
                pending.push(self.jobs[job_no].pids[k]);
                proof {
                    assert(pending@ =~= self.jobs@[job_no as int].pids@.subrange(n - 1, k + 1));
                }
                k += 1;
            }
            proof {
                assert(pending@ =~= old(self).jobs_view()[job_no as int].pids.skip(n - 1));
            }
            Some(self.record_stop(&pending))
        } else {
            self.jobs[job_no].status = JobState::Done;
            proof {
                assert(final(self).jobs_view() =~= after_wait_jobs(
                    old(self).jobs_view(),
                    job_no as int,
                    outcomes@,
                ));
                if old(self).wf() {
                    lemma_wait_keeps_table(old(self).jobs_view(), job_no as int, outcomes@);
                }
            }
            None
        }
    }

    /// Waits in the foreground for the job `job_no`: for each of its
    /// stages in order, until one of them is stopped, and records what was
    /// observed as [`ShellCore::settle_job`] does. The reports are handed
    /// back with the status line that a stop produced: the report at place
    /// `i` is that of the wait on the stage `i`, and where it names a process
    /// it names that stage. A job that is `Done` or `Printed` already is not
    /// waited for.
    /// If a wait call fails, the session is left
    /// as it was and the failure is handed back; that cannot happen for a
    /// job that has run to its end or has no stages, as no process is waited
    /// for then.
    pub fn wait_job(&mut self, job_no: usize) -> (r: Result<JobReport, WaitError>)
        requires
            job_no < old(self).jobs@.len(),
        ensures
            waits_for_nothing(old(self).jobs_view()[job_no as int]) ==> r is Ok,
            match r {
                Ok(report) => {
                    let job = old(self).jobs_view()[job_no as int];
                    &&& if is_over(job) {
                        report.outcomes@.len() == 0
                    } else {
                        reports_fit(report.outcomes@, job.pids.len())
                    }
                    &&& answer_in_order(
                        report.outcomes@,
                        job.pids.take(report.outcomes@.len() as int),
                    )
                    &&& final(self).jobs_view() == after_wait_jobs(
                        old(self).jobs_view(),
                        job_no as int,
                        report.outcomes@,
                    )
                    &&& final(self).vars_view() == if is_over(job) {
                        old(self).vars_view()
                    } else {
                        after_wait_vars(old(self).vars_view(), report.outcomes@)
                    }
                    &&& report.status_line is Some <==> !is_over(job) && stop_fired(
                        report.outcomes@,
                    )
                    &&& report.status_line matches Some(l) ==> l@ == status_line(
                        stopped_job(
                            old(self).jobs_view()[0],
                            old(self).jobs@.len() as usize,
                            job.pids.skip(report.outcomes@.len() - 1),
                        ),
                    )
                    &&& final(self).same_settings(old(self))
                },
                Err(_) => *final(self) == *old(self),
            },
            old(self).wf() ==> final(self).wf(),
    {
        let mut outcomes: Vec<WaitOutcome> = Vec::new();
        if self.jobs[job_no].over() {
            return Ok(JobReport { outcomes: outcomes, status_line: None });
        }
        let n = self.jobs[job_no].pids.len();
        let mut i: usize = 0;
        let mut stopped = false;
        while i < n && !stopped
            invariant
                i <= n,
                *self == *old(self),
                job_no < self.jobs@.len(),
                n == self.jobs@[job_no as int].pids@.len(),
                !is_over(self.jobs@[job_no as int]@),
                outcomes@.len() == i,
                answer_in_order(outcomes@, self.jobs@[job_no as int].pids@.take(i as int)),
                stopped == stop_fired(outcomes@),
                forall|k: int| 0 <= k < outcomes@.len() - 1 ==> !(#[trigger] outcomes@[k] is Stopped),
            decreases n - i, if stopped { 0int } else { 1int },
        {
            match wait_blocking(self.jobs[job_no].pids[i]) {
                Ok(outcome) => {
                    stopped = match outcome {
                        WaitOutcome::Stopped(_, _) => true,
                        _ => false,
                    };
                    outcomes.push(outcome);
                },
                Err(e) => {
                    return Err(e);
                },
            }
            i += 1;
        }
        let status_line = self.settle_job(job_no, &outcomes);
        Ok(JobReport { outcomes: outcomes, status_line: status_line })
    }

    /// Whether the process `pid` is finished: polls it without blocking.
    pub fn check_async_process(pid: i32) -> (r: Result<bool, WaitError>)
    {
        match wait_polling(pid) {
            Ok(outcome) => Ok(finished(&outcome)),
            Err(e) => Err(e),
        }
    }

    /// Applies the answers of one poll cycle to the table. Every background
    /// job with pending processes takes its answers as [`Job::settle_poll`]
    /// says; then the status of every background job that is `Done` is
    /// reported, which makes it `Printed`; then the `Printed` jobs at the end
    /// of the table are dropped, up to the first job that is not `Printed`.
    /// The status lines are handed back in table order.
    pub fn settle_jobs(&mut self, done: &Vec<Vec<bool>>) -> (lines: Vec<String>)
        requires
            answers_fit(old(self).jobs_view(), answers_view(done@)),
        ensures
            final(self).jobs_view() == after_check(old(self).jobs_view(), answers_view(done@)),
            texts(lines@) == report_lines(after_polls(old(self).jobs_view(), answers_view(done@))),
            final(self).vars == old(self).vars,
            old(self).wf() ==> final(self).wf(),
            final(self).same_settings(old(self)),
    {
        let n = self.jobs.len();
        let ghost before = self.jobs_view();
        let ghost answers = answers_view(done@);
        let mut j: usize = 1;
        while j < n
            invariant
                1 <= j,
                n == self.jobs@.len(),
                before.len() == n,
                answers == answers_view(done@),
                answers_fit(before, answers),
                self.vars == old(self).vars,
                self.same_settings(old(self)),
                forall|k: int| 0 <= k < n && k < j ==> (#[trigger] self.jobs@[k])@ == after_polls(before, answers)[k],
                forall|k: int| j <= k < n ==> (#[trigger] self.jobs@[k])@ == before[k],
            decreases n - j,
        {
            proof {
                assert(answers[j as int] == done@[j as int]@);
            }
            if self.jobs[j].async_pids.len() != 0 {
                self.jobs[j].settle_poll(&done[j]);
            }
            j += 1;
        }
        let ghost polled = after_polls(before, answers);
        proof {
            assert(self.jobs_view() =~= polled);
        }
        let mut lines: Vec<String> = Vec::new();
        let mut j: usize = 1;
        proof {
            assert(texts(lines@) =~= Seq::<Seq<char>>::empty());
        }
        while j < n
            invariant
                1 <= j,
                n == self.jobs@.len(),
                polled.len() == n,
                self.vars == old(self).vars,
                self.same_settings(old(self)),
                forall|k: int| 0 <= k < n && k < j ==> (#[trigger] self.jobs@[k])@ == after_reports(polled)[k],
                forall|k: int| j <= k < n ==> (#[trigger] self.jobs@[k])@ == polled[k],
                j <= n ==> texts(lines@) == report_lines(polled.take(j as int)),
                j > n ==> texts(lines@) == report_lines(polled),
            decreases n - j,
        {
            proof {
                assert(polled.take(j + 1).drop_last() == polled.take(j as int));
            }
            if self.jobs[j].status == JobState::Done {
                match self.jobs[j].print_status() {
                    Some(line) => {
                        proof {
                            assert(texts(lines@.push(line)) =~= texts(lines@).push(line@));
                        }
                        lines.push(line);
                    },
                    None => {},
                }
            }
            j += 1;
        }
        let ghost reported = after_reports(polled);
        proof {
            if n >= 1 {
                assert(polled.take(n as int) == polled);
            }
            assert(self.jobs_view() =~= reported);
        }
        loop
            invariant
                compacted(self.jobs_view()) == compacted(reported),
                self.vars == old(self).vars,
                self.same_settings(old(self)),
            ensures
                self.jobs_view() == compacted(reported),
            decreases self.jobs@.len(),
        {
            let len = self.jobs.len();
            if len <= 1 {
                break ;
            }
            if self.jobs[len - 1].status != JobState::Printed {
                break ;
            }
            proof {
                assert(self.jobs_view().drop_last() =~= self.jobs@.drop_last().map_values(
                    |job: Job| job@,
                ));
            }
            self.jobs.pop();
        }
        proof {
            if old(self).wf() {
                lemma_check_keeps_table(old(self).jobs_view(), answers);
            }
        }
        lines
    }

    /// Runs one poll cycle: asks, without blocking, after every pending
    /// process of every background job, job by job in table order and within
    /// a job in the order of [`poll_order`], and applies the answers as
    /// [`ShellCore::settle_jobs`] does. The reports and the status lines to
    /// print are handed back; a report that names a process names the one
    /// that was asked after at its place. If a wait call fails, the session is
    /// left as it was and the failure is handed back; that cannot happen where
    /// no background job has a process to ask after.
    pub fn check_jobs(&mut self) -> (r: Result<PollReport, WaitError>)
        ensures
            cycle_polls_nothing(old(self).jobs_view()) ==> r is Ok,
            match r {
                Ok(report) => {
                    let answers = cycle_answers(report.reports@);
                    &&& answers_fit(old(self).jobs_view(), answers)
                    &&& forall|j: int|
                        0 <= j < report.reports@.len() ==> answer_in_order(
                            (#[trigger] report.reports@[j])@,
                            cycle_order(old(self).jobs_view(), j),
                        )
                    &&& final(self).jobs_view() == after_check(old(self).jobs_view(), answers)
                    &&& texts(report.lines@) == report_lines(
                        after_polls(old(self).jobs_view(), answers),
                    )
                    &&& final(self).vars == old(self).vars
                    &&& final(self).same_settings(old(self))
                },
                Err(_) => *final(self) == *old(self),
            },
            old(self).wf() ==> final(self).wf(),
    {
        let n = self.jobs.len();
        let mut reports: Vec<Vec<WaitOutcome>> = Vec::new();
        let mut done: Vec<Vec<bool>> = Vec::new();
        let mut j: usize = 0;
        while j < n
            invariant
                j <= n,
                n == self.jobs@.len(),
                *self == *old(self),
                reports@.len() == j,
                done@.len() == j,
                forall|k: int|
                    0 <= k < j ==> answer_in_order(
                        (#[trigger] reports@[k])@,
                        cycle_order(self.jobs_view(), k),
                    ),
                forall|k: int| 0 <= k < j ==> (#[trigger] done@[k])@ == answers_of(reports@[k]@),
            decreases n - j,
        {
            let of_job = if j >= 1 {
                match self.jobs[j].poll_pending() {
                    Ok(of_job) => of_job,
                    Err(e) => {
                        proof {
                            assert(!polls_nothing(self.jobs_view()[j as int]));
                        }
                        return Err(e);
                    },
                }
            } else {
                Vec::new()
            };
            done.push(answers(&of_job));
            reports.push(of_job);
            j += 1;
        }
        proof {
            assert(answers_view(done@) =~= cycle_answers(reports@));
            let view = answers_view(done@);
            assert forall|k: int| 1 <= k < n implies (#[trigger] view[k]).len() == answers_due(
                self.jobs_view()[k],
            ) by {
                assert(answer_in_order(reports@[k]@, cycle_order(self.jobs_view(), k)));
            }
            if n >= 1 {
                assert(answer_in_order(reports@[0]@, cycle_order(self.jobs_view(), 0)));
            }
        }
        let lines = self.settle_jobs(&done);
        Ok(PollReport { reports: reports, lines: lines })
    }

    /// Takes a job that a pipeline produced into the table, as
    /// [`after_accept`] says. The number of the slot that the job took is
    /// handed back: 0 for a foreground job, which is then to be waited for.
    pub fn accept_job(&mut self, job: Job) -> (slot: usize)
        requires
            old(self).jobs@.len() >= 1,
        ensures
            final(self).jobs_view() == after_accept(old(self).jobs_view(), job@),
            slot == if job@.is_bg {
                old(self).jobs@.len()
            } else {
                0
            },
            final(self).vars == old(self).vars,
            old(self).wf() ==> final(self).wf(),
            final(self).same_settings(old(self)),
    {
        proof {
            if old(self).wf() {
                lemma_accept_keeps_table(old(self).jobs_view(), job@);
            }
        }
        let mut job = job;
        if job.is_bg {
            let number = self.jobs.len();
            let pending = job.pids.clone();
            proof {
                assert(pending@ =~= job.pids@);
            }
            job.id = number;
            job.mark = RecencyMark::Current;
            job.async_pids = pending;
            self.add_bg_job(job);
            number
        } else {
            self.jobs[0] = job;
            proof {
                assert(final(self).jobs_view() =~= old(self).jobs_view().update(0, job@));
            }
            0
        }
    }

    /// The last exit status as a number, where `?` holds a numeral that an
    /// `i32` holds.
    pub fn last_status(&self) -> (status: Option<i32>)
        ensures
            match status {
                Some(number) => self.vars@.contains_key(status_var()) && i32_value(
                    self.vars@[status_var()]@,
                ) == Some(number as int),
                None => !self.vars@.contains_key(status_var()) || i32_value(
                    self.vars@[status_var()]@,
                ) is None,
            },
    {
        proof {
            reveal_strlit("?");
            assert("?"@ =~= status_var());
        }
        match self.vars.get("?") {
            Some(value) => {
                let chars = chars_of(value.as_str());
                proof {
                    assert(chars@.skip(0) =~= chars@);
                }
                parse_i32(&chars, 0)
            },
            None => None,
        }
    }

    /// Records what a poll of the child of a command substitution reported,
    /// as [`after_pipe_poll`] says, and tells whether the output of the child
    /// is to be read further: that is so while the child is alive.
    pub fn record_pipe_poll(&mut self, outcome: &WaitOutcome) -> (keep_reading: bool)
        ensures
            keep_reading == (*outcome == WaitOutcome::StillAlive),
            final(self).vars_view() == after_pipe_poll(old(self).vars_view(), *outcome),
            final(self).jobs == old(self).jobs,
            old(self).wf() ==> final(self).wf(),
            final(self).same_settings(old(self)),
    {
        proof {
            reveal_strlit("?");
            assert("?"@ =~= status_var());
        }
        match outcome {
            WaitOutcome::StillAlive => true,
            WaitOutcome::Exited(_, _) => {
                let status = decimal_string(exit_status(outcome));
                self.set_var("?", status.as_str());
                false
            },
            WaitOutcome::Signaled(_, _, _) => {
                let status = decimal_string(exit_status(outcome));
                self.set_var("?", status.as_str());
                false
            },
            _ => false,
        }
    }

    /// Asks, without blocking, after the child `pid` of a command
    /// substitution, after a piece of its output was read, and records the
    /// report as [`ShellCore::record_pipe_poll`] does. The report is handed
    /// back with the answer whether to read on. If the wait call fails, the
    /// session is left as it was and the failure is handed back.
    pub fn read_pipe(&mut self, pid: i32) -> (r: Result<(WaitOutcome, bool), WaitError>)
        ensures
            match r {
                Ok((outcome, keep_reading)) => {
                    &&& answers_for(outcome, pid)
                    &&& keep_reading == (outcome == WaitOutcome::StillAlive)
                    &&& final(self).vars_view() == after_pipe_poll(old(self).vars_view(), outcome)
                    &&& final(self).jobs == old(self).jobs
                    &&& final(self).same_settings(old(self))
                },
                Err(_) => *final(self) == *old(self),
            },
            old(self).wf() ==> final(self).wf(),
    {
        match wait_polling(pid) {
            Ok(outcome) => {
                let keep_reading = self.record_pipe_poll(&outcome);
                Ok((outcome, keep_reading))
            },
            Err(e) => Err(e),
        }
    }

    /// Registers `added` as the newest background job. If it comes marked
    /// `Current`, the job that was `Current` becomes `Previous` and every
    /// other job of the table becomes `Other`.
    pub fn add_bg_job(&mut self, added: Job)
        ensures
            final(self).jobs_view() == after_add(old(self).jobs_view(), added@),
            final(self).vars == old(self).vars,
            old(self).wf() ==> final(self).wf(),
            final(self).same_settings(old(self)),
    {
        if added.mark == RecencyMark::Current {
            let n = self.jobs.len();
            let mut i: usize = 0;
            while i < n
                invariant
                    i <= n,
                    n == self.jobs@.len(),
                    n == old(self).jobs@.len(),
                    self.vars == old(self).vars,
                    self.same_settings(old(self)),
                    forall|k: int|
                        0 <= k < i ==> (#[trigger] self.jobs@[k])@ == demoted(old(self).jobs@[k]@),
                    forall|k: int| i <= k < n ==> #[trigger] self.jobs@[k] == old(self).jobs@[k],
                decreases n - i,
            {
                let mark = self.jobs[i].mark;
                self.jobs[i].mark = if mark == RecencyMark::Current {
                    RecencyMark::Previous
                } else {
                    RecencyMark::Other
                };
                i += 1;
            }
            proof {
                assert(self.jobs_view() =~= old(self).jobs_view().map_values(
                    |job: JobView| demoted(job),
                ));
            }
        }
        self.jobs.push(added);
        proof {
            assert(final(self).jobs_view() =~= after_add(old(self).jobs_view(), added@));
            if old(self).wf() {
                lemma_add_keeps_one_current(old(self).jobs_view(), added@);
            }
        }
    }
}

/// After a foreground wait `PIPESTATUS` holds one field for each stage
/// waited for, the numeral of that stage's exit status, in stage order. When
/// no stage was stopped, that is one field for each of the `stages` stages of
/// the job.
pub proof fn lemma_pipestatus_fields(
    vars: Map<Seq<char>, Seq<char>>,
    outcomes: Seq<WaitOutcome>,
    stages: nat,
)
    requires
        reports_fit(outcomes, stages),
    ensures
        after_wait_vars(vars, outcomes).contains_key(pipestatus_var()),
        fields_of(after_wait_vars(vars, outcomes)[pipestatus_var()], ' ') == status_numerals(
            outcomes,
        ),
        fields_of(after_wait_vars(vars, outcomes)[pipestatus_var()], ' ').len() == outcomes.len(),
        !stop_fired(outcomes) ==> fields_of(
            after_wait_vars(vars, outcomes)[pipestatus_var()],
            ' ',
        ).len() == stages,
        forall|i: int|
            0 <= i < outcomes.len() ==> (#[trigger] fields_of(
                after_wait_vars(vars, outcomes)[pipestatus_var()],
                ' ',
            )[i]) == decimal(exit_status_of(outcomes[i])),
        outcomes.len() > 0 ==> after_wait_vars(vars, outcomes)[status_var()] == decimal(
            exit_status_of(outcomes.last()),
        ),
{
    let numerals = status_numerals(outcomes);
    assert forall|i: int| 0 <= i < numerals.len() implies is_field(#[trigger] numerals[i], ' ') by {
        lemma_decimal_is_field(exit_status_of(outcomes[i]));
    }
    lemma_fields_of_join(numerals, ' ');
    reveal_strlit("PIPESTATUS");
    assert(pipestatus_var() != status_var()) by {
        assert(pipestatus_var().len() == 10);
        assert(status_var().len() == 1);
    }
}

} // verus!
