use rusty_bash::job::{Job, JobState, RecencyMark};
use rusty_bash::shell_core::ShellCore;
use rusty_bash::wait::{answers, exit_status, finished, WaitError, WaitOutcome};

fn job_with(text: &str, pids: &[i32], is_bg: bool) -> Job {
    let reported: Vec<Option<i32>> = pids.iter().map(|p| Some(*p)).collect();
    Job::new(&text.to_string(), &reported, is_bg)
}

fn var(core: &ShellCore, key: &str) -> String {
    core.vars.get(key).cloned().unwrap_or_default()
}

#[test]
fn new_job_collects_the_forked_stages_in_order() {
    let reported = vec![Some(11), None, Some(13)];
    let job = Job::new(&"a | cd | b".to_string(), &reported, false);
    assert_eq!(job.pids, vec![11, 13]);
    assert!(job.async_pids.is_empty());
    assert_eq!(job.text, "a | cd | b");
    assert_eq!(job.status, JobState::Running);
    assert!(!job.is_bg);
    assert!(!job.is_waited);
    assert_eq!(job.id, 0);
    assert_eq!(job.mark, RecencyMark::Other);
}

#[test]
fn status_line_shows_number_mark_state_and_text() {
    let mut job = job_with("sleep 5 &", &[100], true);
    job.id = 1;
    job.mark = RecencyMark::Current;
    assert_eq!(job.status_string(), "[1]+ Running sleep 5 &");
    job.mark = RecencyMark::Previous;
    job.status = JobState::Stopped;
    job.id = 12;
    assert_eq!(job.status_string(), "[12]- Stopped sleep 5 &");
    job.mark = RecencyMark::Other;
    job.status = JobState::Done;
    assert_eq!(job.status_string(), "[12]  Done sleep 5 &");
    job.status = JobState::Printed;
    assert_eq!(job.status_string(), "[12]  Printed sleep 5 &");
}

#[test]
fn duplicate_is_equal_in_every_field() {
    let mut job = job_with("a | b", &[3, 4], true);
    job.async_pids = vec![4];
    job.id = 2;
    job.mark = RecencyMark::Previous;
    job.status = JobState::Stopped;
    let copy = job.duplicate();
    assert_eq!(copy.pids, job.pids);
    assert_eq!(copy.async_pids, job.async_pids);
    assert_eq!(copy.text, job.text);
    assert_eq!(copy.status, job.status);
    assert_eq!(copy.is_bg, job.is_bg);
    assert_eq!(copy.is_waited, job.is_waited);
    assert_eq!(copy.id, job.id);
    assert_eq!(copy.mark, job.mark);
}

#[test]
fn print_status_prints_a_done_job_once() {
    let mut job = job_with("true &", &[7], true);
    job.id = 1;
    job.status = JobState::Done;
    assert_eq!(job.print_status(), Some("[1]  Done true &".to_string()));
    assert_eq!(job.status, JobState::Printed);
    assert_eq!(job.print_status(), None);
    assert_eq!(job.status, JobState::Printed);
}

#[test]
fn print_status_prints_only_a_done_job() {
    for state in [JobState::Running, JobState::Stopped, JobState::Printed] {
        let mut job = job_with("sleep 9 &", &[7], true);
        job.id = 3;
        job.status = state;
        assert_eq!(job.print_status(), None);
        assert_eq!(job.print_status(), None);
        assert_eq!(job.status, state);
    }
}

#[test]
fn printed_job_stays_printed() {
    let mut job = job_with("true &", &[7], true);
    job.status = JobState::Done;
    assert!(job.print_status().is_some());
    assert_eq!(job.check_of_finish(), Ok(vec![]));
    assert_eq!(job.status, JobState::Printed);
    job.settle_poll(&vec![]);
    assert_eq!(job.status, JobState::Printed);
    assert_eq!(job.print_status(), None);

    // even with a process left over that a poll finds finished
    job.async_pids = vec![7];
    job.settle_poll(&vec![true]);
    assert!(job.async_pids.is_empty());
    assert_eq!(job.status, JobState::Printed);

    let mut core = ShellCore::new();
    core.accept_job(job_with("true", &[5], false));
    core.jobs[0].status = JobState::Printed;
    assert_eq!(core.settle_job(0, &vec![]), None);
    assert_eq!(core.jobs[0].status, JobState::Printed);
    assert_eq!(var(&core, "PIPESTATUS"), "");
    let report = core.wait_job(0).unwrap();
    assert!(report.outcomes.is_empty());
    assert_eq!(core.jobs[0].status, JobState::Printed);
}

#[test]
fn poll_asks_from_the_last_pending_process_to_the_first() {
    let mut job = job_with("a | b | c &", &[1, 2, 3], true);
    assert!(job.polling_order().is_empty());
    job.async_pids = vec![1, 2, 3];
    assert_eq!(job.polling_order(), vec![3, 2, 1]);
    job.is_waited = true;
    assert!(job.polling_order().is_empty());
    assert!(job.over() == false);
    job.status = JobState::Done;
    assert!(job.over());
    job.status = JobState::Printed;
    assert!(job.over());
    job.status = JobState::Stopped;
    assert!(!job.over());
}

#[test]
fn poll_keeps_the_unfinished_processes_in_polling_order() {
    let mut job = job_with("a | b | c &", &[1, 2, 3], true);
    job.async_pids = vec![1, 2, 3];
    // polled from the last one: 3 finished, 2 alive, 1 alive
    job.settle_poll(&vec![true, false, false]);
    assert_eq!(job.async_pids, vec![2, 1]);
    assert_eq!(job.status, JobState::Running);
    // polled from the last one: 1 finished, 2 finished
    job.settle_poll(&vec![true, true]);
    assert!(job.async_pids.is_empty());
    assert_eq!(job.status, JobState::Done);
}

#[test]
fn poll_leaves_a_waited_job_alone() {
    let mut job = job_with("a &", &[1], true);
    job.async_pids = vec![1];
    job.is_waited = true;
    job.settle_poll(&vec![]);
    assert_eq!(job.async_pids, vec![1]);
    assert_eq!(job.status, JobState::Running);
    assert_eq!(job.check_of_finish(), Ok(vec![]));
    assert_eq!(job.poll_pending(), Ok(vec![]));
}

#[test]
fn background_job_runs_until_a_poll_sees_it_finish() {
    let mut core = ShellCore::new();
    let slot = core.accept_job(job_with("sleep 1 &", &[4242], true));
    assert_eq!(slot, 1);
    assert_eq!(core.jobs[1].id, 1);
    assert_eq!(core.jobs[1].mark, RecencyMark::Current);
    assert_eq!(core.jobs[1].async_pids, vec![4242]);

    // an immediate poll: the process is still alive
    let lines = core.settle_jobs(&vec![vec![], vec![false]]);
    assert!(lines.is_empty());
    assert_eq!(core.jobs.len(), 2);
    assert_eq!(core.jobs[1].status, JobState::Running);
    assert_eq!(core.jobs[1].async_pids, vec![4242]);

    // the process has exited: the job is done, then reported once
    core.jobs[1].settle_poll(&vec![true]);
    assert_eq!(core.jobs[1].status, JobState::Done);
    assert!(core.jobs[1].async_pids.is_empty());
    assert_eq!(core.jobs[1].print_status(), Some("[1]+ Done sleep 1 &".to_string()));
    assert_eq!(core.jobs[1].status, JobState::Printed);
    assert_eq!(core.jobs[1].print_status(), None);
}

#[test]
fn poll_cycle_reports_and_drops_a_finished_job() {
    let mut core = ShellCore::new();
    core.accept_job(job_with("sleep 1 &", &[4242], true));
    let lines = core.settle_jobs(&vec![vec![], vec![true]]);
    assert_eq!(lines, vec!["[1]+ Done sleep 1 &".to_string()]);
    assert_eq!(core.jobs.len(), 1);
}

#[test]
fn three_stage_pipeline_records_every_status() {
    let mut core = ShellCore::new();
    core.accept_job(job_with("false | true | true", &[10, 11, 12], false));
    let outcomes = vec![
        WaitOutcome::Exited(10, 1),
        WaitOutcome::Exited(11, 0),
        WaitOutcome::Exited(12, 0),
    ];
    let line = core.settle_job(0, &outcomes);
    assert_eq!(line, None);
    assert_eq!(var(&core, "PIPESTATUS"), "1 0 0");
    assert_eq!(var(&core, "?"), "0");
    assert_eq!(core.jobs[0].status, JobState::Done);
    assert_eq!(core.jobs.len(), 1);
}

#[test]
fn pipestatus_has_one_field_for_each_stage() {
    for n in 1..6usize {
        let pids: Vec<i32> = (0..n as i32).map(|k| 100 + k).collect();
        let mut core = ShellCore::new();
        core.accept_job(job_with("p", &pids, false));
        let outcomes: Vec<WaitOutcome> =
            pids.iter().map(|p| WaitOutcome::Exited(*p, *p - 100)).collect();
        core.settle_job(0, &outcomes);
        let text = var(&core, "PIPESTATUS");
        let fields: Vec<&str> = text.split(' ').collect();
        assert_eq!(fields.len(), n);
        for (k, field) in fields.iter().enumerate() {
            assert_eq!(field.parse::<i32>(), Ok(k as i32));
        }
        assert_eq!(var(&core, "?"), (n as i32 - 1).to_string());
    }
}

#[test]
fn killed_stage_counts_as_128_plus_signal() {
    let mut core = ShellCore::new();
    core.accept_job(job_with("a | b", &[1, 2], false));
    let outcomes = vec![WaitOutcome::Signaled(1, 9, false), WaitOutcome::Unsupported];
    core.settle_job(0, &outcomes);
    assert_eq!(var(&core, "PIPESTATUS"), "137 1");
    assert_eq!(var(&core, "?"), "1");
    assert_eq!(core.jobs[0].status, JobState::Done);
}

#[test]
fn job_without_stages_is_done_at_once() {
    let mut core = ShellCore::new();
    core.accept_job(job_with("cd /", &[], false));
    let report = core.wait_job(0).unwrap();
    assert!(report.outcomes.is_empty());
    assert_eq!(report.status_line, None);
    assert_eq!(core.jobs[0].status, JobState::Done);
    assert_eq!(var(&core, "PIPESTATUS"), "");
    assert_eq!(var(&core, "?"), "0");
}

#[test]
fn job_without_stages_is_never_polled() {
    let mut core = ShellCore::new();
    core.accept_job(job_with("cd / &", &[], true));
    assert!(core.jobs[1].async_pids.is_empty());
    let report = core.check_jobs().unwrap();
    assert_eq!(report.reports, vec![Vec::<WaitOutcome>::new(), Vec::<WaitOutcome>::new()]);
    assert!(report.lines.is_empty());
    assert_eq!(core.jobs[1].status, JobState::Running);
}

#[test]
fn done_job_is_not_waited_for_again() {
    let mut core = ShellCore::new();
    core.accept_job(job_with("true", &[5], false));
    core.settle_job(0, &vec![WaitOutcome::Exited(5, 3)]);
    assert_eq!(var(&core, "?"), "3");
    let line = core.settle_job(0, &vec![]);
    assert_eq!(line, None);
    assert_eq!(var(&core, "?"), "3");
    assert_eq!(var(&core, "PIPESTATUS"), "3");
    let report = core.wait_job(0).unwrap();
    assert!(report.outcomes.is_empty());
}

#[test]
fn stopped_stage_turns_the_job_into_a_background_job() {
    let mut core = ShellCore::new();
    core.accept_job(job_with("sleep 1 &", &[50], true));
    core.accept_job(job_with("cat | less | wc", &[60, 61, 62], false));
    let outcomes = vec![WaitOutcome::Exited(60, 0), WaitOutcome::Stopped(61, 20)];
    let line = core.settle_job(0, &outcomes);
    assert_eq!(line, Some("[2]+ Stopped cat | less | wc".to_string()));
    assert_eq!(var(&core, "PIPESTATUS"), "0 148");
    assert_eq!(var(&core, "?"), "148");
    assert_eq!(core.jobs.len(), 3);
    // the foreground slot was demoted with the rest of the table
    assert_eq!(core.jobs[0].status, JobState::Stopped);
    assert_eq!(core.jobs[0].mark, RecencyMark::Previous);
    assert_eq!(core.jobs[1].mark, RecencyMark::Previous);
    assert_eq!(core.jobs[2].mark, RecencyMark::Current);
    assert_eq!(core.jobs[2].status, JobState::Stopped);
    assert_eq!(core.jobs[2].id, 2);
    assert_eq!(core.jobs[2].pids, vec![60, 61, 62]);
    assert_eq!(core.jobs[2].async_pids, vec![61, 62]);
}

#[test]
fn record_wait_sets_the_status_and_registers_a_stop() {
    let mut core = ShellCore::new();
    core.accept_job(job_with("vi", &[70], false));
    assert_eq!(core.record_wait(&WaitOutcome::Exited(70, 4)), None);
    assert_eq!(var(&core, "?"), "4");
    assert_eq!(core.jobs.len(), 1);
    let line = core.record_wait(&WaitOutcome::Stopped(70, 19));
    assert_eq!(line, Some("[1]+ Stopped vi".to_string()));
    assert_eq!(var(&core, "?"), "147");
    assert_eq!(core.jobs.len(), 2);
    assert_eq!(core.jobs[1].async_pids, vec![70]);
    assert_eq!(core.jobs[1].mark, RecencyMark::Current);
}

#[test]
fn registering_a_current_job_demotes_the_others() {
    let mut core = ShellCore::new();
    core.accept_job(job_with("a &", &[1], true));
    core.accept_job(job_with("b &", &[2], true));
    core.accept_job(job_with("c &", &[3], true));
    assert_eq!(core.jobs[1].mark, RecencyMark::Other);
    assert_eq!(core.jobs[2].mark, RecencyMark::Previous);
    assert_eq!(core.jobs[3].mark, RecencyMark::Current);
    let current = core.jobs.iter().skip(1).filter(|j| j.mark == RecencyMark::Current).count();
    assert_eq!(current, 1);
    // a job that does not claim the mark leaves the others alone
    let mut plain = job_with("d &", &[4], true);
    plain.id = 4;
    core.add_bg_job(plain);
    assert_eq!(core.jobs[2].mark, RecencyMark::Previous);
    assert_eq!(core.jobs[3].mark, RecencyMark::Current);
    assert_eq!(core.jobs[4].mark, RecencyMark::Other);
}

#[test]
fn compaction_stops_at_the_first_job_that_is_not_printed() {
    let mut core = ShellCore::new();
    for (k, state) in [JobState::Printed, JobState::Stopped, JobState::Printed, JobState::Printed]
        .iter()
        .enumerate()
    {
        let mut job = job_with("j &", &[], true);
        job.id = k + 1;
        job.status = *state;
        core.add_bg_job(job);
    }
    let lines = core.settle_jobs(&vec![vec![]; 5]);
    assert!(lines.is_empty());
    assert_eq!(core.jobs.len(), 3);
    assert_eq!(core.jobs[1].status, JobState::Printed);
    assert_eq!(core.jobs[2].status, JobState::Stopped);
}

#[test]
fn compaction_keeps_the_foreground_slot() {
    let mut core = ShellCore::new();
    core.jobs[0].status = JobState::Printed;
    let lines = core.settle_jobs(&vec![vec![]]);
    assert!(lines.is_empty());
    assert_eq!(core.jobs.len(), 1);
}

#[test]
fn exit_status_follows_the_report() {
    assert_eq!(exit_status(&WaitOutcome::Exited(1, 0)), 0);
    assert_eq!(exit_status(&WaitOutcome::Exited(1, 127)), 127);
    assert_eq!(exit_status(&WaitOutcome::Signaled(1, 2, false)), 130);
    assert_eq!(exit_status(&WaitOutcome::Signaled(1, 11, true)), 139);
    assert_eq!(exit_status(&WaitOutcome::Stopped(1, 19)), 147);
    assert_eq!(exit_status(&WaitOutcome::StillAlive), 1);
    assert_eq!(exit_status(&WaitOutcome::Unsupported), 1);
    assert_eq!(exit_status(&WaitOutcome::Signaled(1, i32::MAX, false)), i32::MAX);
    assert_eq!(exit_status(&WaitOutcome::Signaled(1, i32::MAX - 128, false)), i32::MAX);
    assert_eq!(exit_status(&WaitOutcome::Signaled(1, i32::MAX - 129, false)), i32::MAX - 1);
}

#[test]
fn reports_turn_into_answers() {
    let reports = vec![
        WaitOutcome::StillAlive,
        WaitOutcome::Exited(3, 0),
        WaitOutcome::StillAlive,
        WaitOutcome::Signaled(4, 9, false),
    ];
    assert_eq!(answers(&reports), vec![false, true, false, true]);
    assert_eq!(answers(&vec![]), Vec::<bool>::new());
}

#[test]
fn only_a_live_process_is_unfinished() {
    assert!(!finished(&WaitOutcome::StillAlive));
    assert!(finished(&WaitOutcome::Exited(1, 0)));
    assert!(finished(&WaitOutcome::Signaled(1, 9, false)));
    assert!(finished(&WaitOutcome::Stopped(1, 19)));
    assert!(finished(&WaitOutcome::Unsupported));
}

#[test]
fn waiting_for_a_process_that_is_no_child_fails() {
    let own = nix::unistd::getpid().as_raw();
    let no_child = WaitError { errno: nix::errno::Errno::ECHILD as i32 };
    assert_eq!(ShellCore::check_async_process(own), Err(no_child));

    let mut core = ShellCore::new();
    core.accept_job(job_with("ghost", &[own], false));
    assert_eq!(core.wait_process(own).err(), Some(no_child));
    assert_eq!(var(&core, "?"), "0");
    assert_eq!(core.wait_job(0).err(), Some(no_child));
    assert_eq!(core.jobs[0].status, JobState::Running);
    assert_eq!(var(&core, "PIPESTATUS"), "");
    assert_eq!(core.read_pipe(own).err(), Some(no_child));

    core.accept_job(job_with("ghost &", &[own], true));
    assert_eq!(core.check_jobs().err(), Some(no_child));
    assert_eq!(core.jobs[1].async_pids, vec![own]);
    assert_eq!(core.jobs[1].check_of_finish(), Err(no_child));
    assert_eq!(core.jobs[1].status, JobState::Running);
}

#[test]
fn pipe_poll_reads_on_while_the_child_lives() {
    let mut core = ShellCore::new();
    assert!(core.record_pipe_poll(&WaitOutcome::StillAlive));
    assert_eq!(var(&core, "?"), "0");
    assert!(!core.record_pipe_poll(&WaitOutcome::Exited(9, 5)));
    assert_eq!(var(&core, "?"), "5");
    assert!(!core.record_pipe_poll(&WaitOutcome::Signaled(9, 15, false)));
    assert_eq!(var(&core, "?"), "143");
    assert!(!core.record_pipe_poll(&WaitOutcome::Stopped(9, 19)));
    assert_eq!(var(&core, "?"), "143");
}

#[test]
fn fresh_session_has_status_zero_and_a_foreground_slot() {
    let core = ShellCore::new();
    assert_eq!(var(&core, "?"), "0");
    assert_eq!(core.vars.len(), 1);
    assert_eq!(core.jobs.len(), 1);
    assert_eq!(core.jobs[0].status, JobState::Running);
    assert!(core.jobs[0].pids.is_empty());
    assert!(core.args.is_empty());
    assert_eq!(core.flags, "");
    assert_eq!(core.last_status(), Some(0));
}

#[test]
fn last_status_reads_the_status_variable() {
    let mut core = ShellCore::new();
    core.set_var("?", "-12");
    assert_eq!(core.last_status(), Some(-12));
    core.set_var("?", "+7");
    assert_eq!(core.last_status(), Some(7));
    core.set_var("?", "2147483647");
    assert_eq!(core.last_status(), Some(i32::MAX));
    core.set_var("?", "-2147483648");
    assert_eq!(core.last_status(), Some(i32::MIN));
    core.set_var("?", "2147483648");
    assert_eq!(core.last_status(), None);
    core.set_var("?", "x");
    assert_eq!(core.last_status(), None);
    core.set_var("?", "");
    assert_eq!(core.last_status(), None);
    core.vars.remove("?");
    assert_eq!(core.last_status(), None);
}

#[test]
fn variables_are_looked_up_in_order() {
    let mut core = ShellCore::new();
    core.args = vec!["sh".to_string(), "one".to_string(), "two".to_string()];
    core.flags = "xv".to_string();
    core.set_var("name", "shell value");
    core.env.insert("name".to_string(), "env value".to_string());
    core.env.insert("HOME".to_string(), "/root".to_string());
    core.set_var("7", "seven");

    assert_eq!(core.get_var("0"), "sh");
    assert_eq!(core.get_var("2"), "two");
    assert_eq!(core.get_var("+1"), "one");
    assert_eq!(core.get_var("007"), "");
    assert_eq!(core.get_var("7"), "seven");
    assert_eq!(core.get_var("-"), "xv");
    assert_eq!(core.get_var("#"), "2");
    assert_eq!(core.get_var("@"), "one two");
    assert_eq!(core.get_var("*"), "one two");
    assert_eq!(core.get_var("name"), "shell value");
    assert_eq!(core.get_var("HOME"), "/root");
    assert_eq!(core.get_var("nothing"), "");
    assert_eq!(core.get_var("?"), "0");

    core.in_double_quot = true;
    assert_eq!(core.get_var("*"), "one two");
    core.set_var("IFS", ":;");
    assert_eq!(core.get_var("*"), "one:two");
    assert_eq!(core.get_var("@"), "one two");
    core.set_var("IFS", "");
    assert_eq!(core.get_var("*"), "one two");

    core.args = vec!["sh".to_string()];
    assert_eq!(core.get_var("#"), "0");
    assert_eq!(core.get_var("@"), "");
    assert_eq!(core.get_var("*"), "");
}

#[test]
fn functions_and_flags_are_found() {
    let mut core = ShellCore::new();
    assert_eq!(core.get_function(&"f".to_string()), None);
    core.functions.insert("f".to_string(), "{ echo hi; }".to_string());
    assert_eq!(core.get_function(&"f".to_string()), Some("{ echo hi; }".to_string()));
    core.flags = "ei".to_string();
    assert!(core.has_flag('e'));
    assert!(core.has_flag('i'));
    assert!(!core.has_flag('x'));
}

#[test]
fn foreground_job_takes_the_foreground_slot() {
    let mut core = ShellCore::new();
    let slot = core.accept_job(job_with("ls", &[33], false));
    assert_eq!(slot, 0);
    assert_eq!(core.jobs.len(), 1);
    assert_eq!(core.jobs[0].pids, vec![33]);
    assert_eq!(core.jobs[0].id, 0);
    assert_eq!(core.jobs[0].mark, RecencyMark::Other);
    assert!(core.jobs[0].async_pids.is_empty());
}

#[test]
fn poll_with_nothing_to_ask_after_succeeds() {
    let mut job = job_with("true &", &[8], true);
    assert_eq!(job.poll_pending(), Ok(vec![]));
    assert_eq!(job.check_of_finish(), Ok(vec![]));
    assert_eq!(job.status, JobState::Running);

    let mut core = ShellCore::new();
    let mut waited = job_with("vi &", &[9], true);
    waited.async_pids = vec![9];
    waited.is_waited = true;
    waited.id = 1;
    core.add_bg_job(waited);
    let report = core.check_jobs().unwrap();
    assert_eq!(report.reports, vec![Vec::<WaitOutcome>::new(), Vec::<WaitOutcome>::new()]);
    assert!(report.lines.is_empty());
    assert_eq!(core.jobs[1].async_pids, vec![9]);
    assert_eq!(core.jobs[1].status, JobState::Running);
}
