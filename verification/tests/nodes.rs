use rusty_bash::elem_command::{Command, EXEC_FAILED_STATUS};
use rusty_bash::elem_compound_brace::{tail_check, CompoundBrace};
use rusty_bash::elem_compound_if::{CompoundIf, IfStep};
use rusty_bash::elem_list::Script;
use rusty_bash::element_list::ControlOperator;
use rusty_bash::elems_in_command::{Eoc, Redirect};
use rusty_bash::feeder::{DebugInfo, Feeder};
use rusty_bash::job::JobState;
use rusty_bash::pipeline::{parent_io, Node, PipeEnds, Pipeline, StageIo, StartAction};
use rusty_bash::redirect::{set_child_io, FdAction, RedirectError};
use rusty_bash::shell_core::ShellCore;

fn redirect(left_fd: i32, direction: &str, path: &str) -> Redirect {
    Redirect {
        text: format!("{}{}{}", left_fd, direction, path),
        pos: DebugInfo { lineno: 0, pos: 0 },
        left_fd,
        direction_str: direction.to_string(),
        path: path.to_string(),
    }
}

fn plan(pipein: i32, pipeout: i32, prev: i32, redirects: &Vec<Redirect>) -> Vec<String> {
    set_child_io(pipein, pipeout, prev, redirects)
        .unwrap()
        .iter()
        .map(|step| format!("{:?}", step))
        .collect()
}

fn command(text: &str) -> Command {
    let mut feeder = Feeder::new_with(text).unwrap();
    Command::parse(&mut feeder, &mut ShellCore::new()).unwrap()
}

#[test]
fn output_redirection_opens_the_file_on_the_descriptor() {
    let steps = set_child_io(-1, -1, -1, &vec![redirect(1, ">", "/tmp/x")]).unwrap();
    assert_eq!(steps.len(), 1);
    assert!(matches!(&steps[0], FdAction::OpenWrite { path, to: 1 } if path == "/tmp/x"));
}

#[test]
fn input_redirection_opens_the_file_for_reading() {
    let steps = set_child_io(-1, -1, -1, &vec![redirect(0, "<", "/no/such/file")]).unwrap();
    assert_eq!(steps.len(), 1);
    assert!(matches!(&steps[0], FdAction::OpenRead { path, to: 0 } if path == "/no/such/file"));
}

#[test]
fn redirections_come_first_and_in_list_order() {
    let redirects =
        vec![redirect(1, ">", "out"), redirect(2, ">", "&1"), redirect(0, "<", "in")];
    assert_eq!(
        plan(5, 6, 4, &redirects),
        vec![
            "OpenWrite { path: \"out\", to: 1 }",
            "Dup { from: 1, to: 2 }",
            "OpenRead { path: \"in\", to: 0 }",
            "Close { fd: 5 }",
            "Move { from: 6, to: 1 }",
            "Move { from: 4, to: 0 }",
        ]
    );
}

#[test]
fn both_outputs_go_to_the_file() {
    assert_eq!(
        plan(-1, -1, -1, &vec![redirect(7, "&>", "log")]),
        vec!["OpenWrite { path: \"log\", to: 1 }", "Dup { from: 1, to: 2 }"]
    );
}

#[test]
fn unknown_direction_asks_for_nothing() {
    assert!(plan(-1, -1, -1, &vec![redirect(1, ">>", "log")]).is_empty());
    assert!(plan(-1, -1, -1, &vec![]).is_empty());
    assert_eq!(plan(-1, 9, -1, &vec![]), vec!["Move { from: 9, to: 1 }"]);
    assert_eq!(plan(-1, -1, 8, &vec![]), vec!["Move { from: 8, to: 0 }"]);
    assert_eq!(plan(3, -1, -1, &vec![]), vec!["Close { fd: 3 }"]);
}

#[test]
fn descriptor_target_is_read_as_a_number() {
    assert_eq!(plan(-1, -1, -1, &vec![redirect(2, ">", "&1")]), vec!["Dup { from: 1, to: 2 }"]);
    assert_eq!(
        plan(-1, -1, -1, &vec![redirect(1, ">", "&+12")]),
        vec!["Dup { from: 12, to: 1 }"]
    );
    assert_eq!(
        plan(-1, -1, -1, &vec![redirect(1, ">", "&-1")]),
        vec!["Dup { from: -1, to: 1 }"]
    );
    // `<` never reads its target as a descriptor
    assert_eq!(
        plan(-1, -1, -1, &vec![redirect(0, "<", "&3")]),
        vec!["OpenRead { path: \"&3\", to: 0 }"]
    );
}

#[test]
fn redirection_without_target_is_refused() {
    for direction in [">", "<", "&>", ">>"] {
        let refused = set_child_io(-1, -1, -1, &vec![redirect(1, direction, "")]);
        assert_eq!(refused.err(), Some(RedirectError::EmptyTarget));
    }
}

#[test]
fn descriptor_target_that_is_no_number_is_refused() {
    for path in ["&", "&x", "&1x", "& 1", "&2147483648", "&-2147483649"] {
        let refused = set_child_io(-1, -1, -1, &vec![redirect(1, ">", path)]);
        assert_eq!(refused.err(), Some(RedirectError::InvalidFdNumber));
    }
}

#[test]
fn first_refusal_in_list_order_is_reported() {
    let redirects = vec![redirect(1, ">", "ok"), redirect(1, ">", "&x"), redirect(1, ">", "")];
    let refused = set_child_io(-1, -1, -1, &redirects);
    assert_eq!(refused.err(), Some(RedirectError::InvalidFdNumber));
    let redirects = vec![redirect(1, ">", ""), redirect(1, ">", "&x")];
    assert_eq!(set_child_io(3, 4, 5, &redirects).err(), Some(RedirectError::EmptyTarget));
}

#[test]
fn command_reads_its_words_from_the_whole_text() {
    let mut feeder = Feeder::new_with("ls -l  /tmp \n").unwrap();
    let mut core = ShellCore::new();
    let parsed = Command::parse(&mut feeder, &mut core).unwrap();
    assert_eq!(parsed.text, "ls -l  /tmp \n");
    assert_eq!(parsed.args, vec!["ls", "-l", "", "/tmp"]);
    assert!(feeder.remaining.is_empty());
    assert_eq!(feeder.pos_in_line, 13);
    assert_eq!(parsed.pid, None);
    assert_eq!((parsed.pipein, parsed.pipeout, parsed.prevpipein), (-1, -1, -1));
    assert_eq!(command("").args, vec![""]);
    assert_eq!(command(" \n").args, vec![""]);
    assert_eq!(command(" a").args, vec!["", "a"]);
}

#[test]
fn command_is_run_by_the_shell_or_by_a_child() {
    assert!(matches!(command("exit\n").exec(), StartAction::Exit { status: 0 }));
    assert!(matches!(command("exit").exec(), StartAction::Fork));
    assert!(matches!(command("exit 1\n").exec(), StartAction::Fork));
    assert!(matches!(command("cd /tmp\n").exec(), StartAction::ChangeDir { path } if path == "/tmp"));
    assert!(matches!(command("cd\n").exec(), StartAction::Fork));
    assert!(matches!(command("echo hi\n").exec(), StartAction::Fork));
    assert_eq!(EXEC_FAILED_STATUS, 127);
}

#[test]
fn brace_group_runs_in_place_only_with_the_streams_of_the_shell() {
    let mut group = CompoundBrace::new();
    assert!(matches!(group.exec(), StartAction::Fork));
    group.script = Some(Script::new());
    assert!(matches!(group.exec(), StartAction::InPlace));
    group.set_pipe(-1, -1, 4);
    assert!(matches!(group.exec(), StartAction::Fork));
    group.set_pipe(3, -1, -1);
    assert!(matches!(group.exec(), StartAction::Fork));
    group.set_pipe(-1, 5, -1);
    assert!(matches!(group.exec(), StartAction::Fork));
    group.set_pipe(-1, -1, -1);
    assert!(matches!(group.exec(), StartAction::InPlace));
    group.redirects.push(redirect(1, ">", "out"));
    assert!(matches!(group.exec(), StartAction::Fork));
    let steps = group.set_child_io().unwrap();
    assert_eq!(steps.len(), 1);
}

#[test]
fn brace_group_reports_its_pid_and_end_mark() {
    let mut group = CompoundBrace::new();
    assert_eq!(group.get_pid(), None);
    assert_eq!(group.get_eoc_string(), "");
    group.pid = Some(77);
    group.eoc = Some(Eoc { text: ";".to_string(), debug: DebugInfo { lineno: 1, pos: 2 } });
    assert_eq!(group.get_pid(), Some(77));
    assert_eq!(group.get_eoc_string(), ";");
    assert_eq!(group.eoc.as_ref().unwrap().text(), ";");
    group.set_pipe(3, 4, 5);
    let io = group.set_parent_io();
    assert_eq!(io.close, vec![4, 5]);
    assert_eq!(io.next_prev, 3);
}

#[test]
fn body_of_a_brace_group_has_to_end_a_command() {
    assert!(tail_check(&"echo hi;".to_string()));
    assert!(tail_check(&"echo hi;  ".to_string()));
    assert!(tail_check(&"echo hi\n".to_string()));
    assert!(tail_check(&"echo hi\t ".to_string()));
    assert!(!tail_check(&"echo hi".to_string()));
    assert!(!tail_check(&"echo hi; x".to_string()));
    assert!(!tail_check(&"   ".to_string()));
    assert!(!tail_check(&"".to_string()));
}

#[test]
fn if_compound_always_forks_and_steps_through_its_pairs() {
    let mut compound = CompoundIf::new();
    assert!(matches!(compound.exec(), StartAction::Fork));
    assert_eq!(compound.first_step(), IfStep::Finish);
    compound.else_do = Some(Script::new());
    assert_eq!(compound.first_step(), IfStep::Else);
    compound.ifthen.push((Script::new(), Script::new()));
    compound.ifthen.push((Script::new(), Script::new()));
    assert_eq!(compound.first_step(), IfStep::Condition(0));
    assert_eq!(compound.exec_if_compound(IfStep::Condition(0), true), IfStep::Body(0));
    assert_eq!(compound.exec_if_compound(IfStep::Condition(0), false), IfStep::Condition(1));
    assert_eq!(compound.exec_if_compound(IfStep::Condition(1), true), IfStep::Body(1));
    assert_eq!(compound.exec_if_compound(IfStep::Condition(1), false), IfStep::Else);
    assert_eq!(compound.exec_if_compound(IfStep::Body(0), true), IfStep::Finish);
    assert_eq!(compound.exec_if_compound(IfStep::Body(1), false), IfStep::Finish);
    assert_eq!(compound.exec_if_compound(IfStep::Else, true), IfStep::Finish);
    assert_eq!(compound.exec_if_compound(IfStep::Finish, true), IfStep::Finish);
    compound.else_do = None;
    assert_eq!(compound.exec_if_compound(IfStep::Condition(1), false), IfStep::Finish);
    assert_eq!(compound.exec_if_compound(IfStep::Condition(usize::MAX), false), IfStep::Finish);
}

#[test]
fn if_compound_hands_out_what_it_holds() {
    let mut compound = CompoundIf::new();
    compound.text = "if a; then b; fi".to_string();
    compound.set_pipe(3, 4, 5);
    compound.pid = Some(9);
    assert_eq!(compound.get_pipe_end(), 3);
    assert_eq!(compound.get_pipe_out(), 4);
    assert_eq!(compound.prevpipein, 5);
    assert_eq!(compound.get_pid(), Some(9));
    assert_eq!(compound.get_text(), "if a; then b; fi");
    assert_eq!(compound.get_eoc_string(), "");
    compound.eoc = Some(Eoc { text: "\n".to_string(), debug: DebugInfo { lineno: 0, pos: 0 } });
    assert_eq!(compound.get_eoc_string(), "\n");
}

#[test]
fn parent_closes_what_the_started_stage_took() {
    let first = parent_io(StageIo { pipein: 3, pipeout: 4, prevpipein: -1 });
    assert_eq!(first.close, vec![4]);
    assert_eq!(first.next_prev, 3);
    let middle = parent_io(StageIo { pipein: 5, pipeout: 6, prevpipein: 3 });
    assert_eq!(middle.close, vec![6, 3]);
    assert_eq!(middle.next_prev, 5);
    let last = parent_io(StageIo { pipein: -1, pipeout: -1, prevpipein: 5 });
    assert_eq!(last.close, vec![5]);
    assert_eq!(last.next_prev, -1);
    let alone = parent_io(StageIo { pipein: -1, pipeout: -1, prevpipein: -1 });
    assert!(alone.close.is_empty());
}

#[test]
fn pipeline_wires_its_stages_and_becomes_a_job() {
    let mut pipeline = Pipeline {
        commands: vec![
            Node::Simple(command("false\n")),
            Node::Brace(CompoundBrace::new()),
            Node::If(CompoundIf::new()),
        ],
        text: "false | { true; } | if true; then true; fi".to_string(),
        is_bg: false,
    };
    assert!(pipeline.needs_pipe(0));
    assert!(pipeline.needs_pipe(1));
    assert!(!pipeline.needs_pipe(2));
    assert!(!pipeline.needs_pipe(3));
    assert!(!pipeline.needs_pipe(usize::MAX));

    let pipes = [PipeEnds { read_end: 3, write_end: 4 }, PipeEnds { read_end: 5, write_end: 6 }];
    let mut prev = -1;
    let mut closed = Vec::new();
    for i in 0..3 {
        let pipe = if pipeline.needs_pipe(i) { Some(pipes[i]) } else { None };
        pipeline.wire(i, pipe, prev);
        pipeline.commands[i].set_pid(100 + i as i32);
        let io = pipeline.commands[i].set_parent_io();
        closed.extend(io.close);
        prev = io.next_prev;
    }
    assert_eq!(prev, -1);
    // every end of every pipe is closed once by the parent
    closed.sort();
    assert_eq!(closed, vec![3, 4, 5, 6]);
    let Node::Brace(middle) = &pipeline.commands[1] else { panic!("a brace group") };
    assert_eq!((middle.pipein, middle.pipeout, middle.prevpipein), (5, 6, 3));
    let Node::If(last) = &pipeline.commands[2] else { panic!("an if compound") };
    assert_eq!((last.pipein, last.pipeout, last.prevpipein), (-1, -1, 5));

    let job = pipeline.job();
    assert_eq!(job.pids, vec![100, 101, 102]);
    assert_eq!(job.text, pipeline.text);
    assert_eq!(job.status, JobState::Running);
    assert!(!job.is_bg);
}

#[test]
fn stage_that_did_not_fork_is_no_part_of_the_job() {
    let mut pipeline = Pipeline {
        commands: vec![Node::Simple(command("cd /\n")), Node::Simple(command("ls\n"))],
        text: "cd / | ls".to_string(),
        is_bg: true,
    };
    pipeline.commands[1].set_pid(41);
    assert_eq!(pipeline.commands[0].get_pid(), None);
    assert_eq!(pipeline.commands[1].get_pid(), Some(41));
    let job = pipeline.job();
    assert_eq!(job.pids, vec![41]);
    assert!(job.is_bg);
}

#[test]
fn operators_have_their_text() {
    let all = [
        (ControlOperator::Or, "||"),
        (ControlOperator::And, "&&"),
        (ControlOperator::BgAnd, "&"),
        (ControlOperator::Semicolon, ";"),
        (ControlOperator::DoubleSemicolon, ";;"),
        (ControlOperator::SemiAnd, ";&"),
        (ControlOperator::SemiSemiAnd, ";;&"),
        (ControlOperator::Pipe, "|"),
        (ControlOperator::PipeAnd, "|&"),
        (ControlOperator::NewLine, "\n"),
        (ControlOperator::NoChar, ""),
    ];
    for (op, text) in all {
        assert_eq!(op.text(), text);
        assert_eq!(op.is_background(), op == ControlOperator::BgAnd);
    }
}

#[test]
fn empty_script_holds_nothing() {
    let script = Script::new();
    assert!(script.elems.is_empty());
    assert_eq!(script.text, "");
    assert_eq!(script.procnum, 0);
}
