use minishell::engine::{Action, Event, Failure, Input, Output, Run, Session};
use minishell::stage::{parse_line, Stage};

fn words(list: &[&str]) -> Vec<String> {
    list.iter().map(|w| w.to_string()).collect()
}

fn start(stage: usize, command: &str, args: &[&str], input: Input, output: Output) -> Action {
    Action::Launch { stage, command: command.to_string(), args: words(args), input, output }
}

/// Runs a line, answering each action with the next reply, and gives back
/// the actions and the session that the line leaves behind.
fn drive(line: &str, session: Session, replies: Vec<Event>) -> (Vec<Action>, Session) {
    let pipeline = parse_line(line).expect("the line is a pipeline");
    let (mut run, mut session, mut action) = Run::begin(pipeline, session);
    let mut actions = Vec::new();
    let mut replies = replies.into_iter();
    loop {
        let over = matches!(action, Action::Prompt | Action::Quit);
        actions.push(action);
        if over {
            assert!(run.is_finished());
            break;
        }
        assert!(!run.is_finished());
        let event = match replies.next() {
            Some(event) => event,
            None => break,
        };
        let (r, s, a) = run.reply(session, event);
        run = r;
        session = s;
        action = a;
    }
    (actions, session)
}

fn home() -> Session {
    Session::new("/home/user".to_string())
}

#[test]
fn a_new_session_stays_where_it_is() {
    let session = home();
    assert_eq!(session.cwd(), "/home/user");
    assert_eq!(session.previous(), "/home/user");
    assert!(!session.exit_requested());
}

#[test]
fn a_single_command_runs_on_the_terminal() {
    let (actions, session) = drive("ls -l", home(), vec![Event::Done, Event::Done]);
    assert_eq!(
        actions,
        vec![
            start(0, "ls", &["-l"], Input::Terminal, Output::Terminal),
            Action::Wait { stage: 0 },
            Action::Prompt,
        ]
    );
    assert_eq!(session.cwd(), "/home/user");
    assert!(!session.exit_requested());
}

#[test]
fn echo_hello_into_wc_runs_two_chained_processes() {
    let replies = vec![Event::Done, Event::Done, Event::Done];
    let (actions, _) = drive("echo hello | wc -c", home(), replies);
    assert_eq!(
        actions,
        vec![
            start(0, "echo", &["hello"], Input::Terminal, Output::Pipe),
            start(1, "wc", &["-c"], Input::Pipe { from: 0 }, Output::Terminal),
            Action::Wait { stage: 1 },
            Action::Prompt,
        ]
    );
}

#[test]
fn three_stages_are_chained_in_order() {
    let replies = vec![Event::Done, Event::Done, Event::Done, Event::Done];
    let (actions, _) = drive("cat names | sort -r | head -n 3", home(), replies);
    assert_eq!(
        actions,
        vec![
            start(0, "cat", &["names"], Input::Terminal, Output::Pipe),
            start(1, "sort", &["-r"], Input::Pipe { from: 0 }, Output::Pipe),
            start(2, "head", &["-n", "3"], Input::Pipe { from: 1 }, Output::Terminal),
            Action::Wait { stage: 2 },
            Action::Prompt,
        ]
    );
}

#[test]
fn ls_into_a_file_opens_the_file_first() {
    let (actions, _) = drive("ls > out.txt", home(), vec![Event::Done, Event::Done, Event::Done]);
    assert_eq!(
        actions,
        vec![
            Action::OpenSink { path: "out.txt".to_string() },
            start(0, "ls", &[], Input::Terminal, Output::File("out.txt".to_string())),
            Action::Wait { stage: 0 },
            Action::Prompt,
        ]
    );
}

#[test]
fn a_redirected_pipeline_opens_the_file_before_any_process() {
    let replies = vec![Event::Done, Event::Done, Event::Done, Event::Done];
    let (actions, _) = drive("ls -a | sort > sorted.txt extra", home(), replies);
    assert_eq!(
        actions,
        vec![
            Action::OpenSink { path: "sorted.txt".to_string() },
            start(0, "ls", &["-a"], Input::Terminal, Output::Pipe),
            start(1, "sort", &[], Input::Pipe { from: 0 }, Output::File("sorted.txt".to_string())),
            Action::Wait { stage: 1 },
            Action::Prompt,
        ]
    );
}

#[test]
fn a_file_that_cannot_be_opened_ends_the_line() {
    let replies = vec![Event::Failed, Event::Done, Event::Done];
    let (actions, _) = drive("ls | sort > /no/such/dir/out", home(), replies);
    assert_eq!(
        actions,
        vec![
            Action::OpenSink { path: "/no/such/dir/out".to_string() },
            Action::Report { failure: Failure::Sink },
            Action::Prompt,
        ]
    );
}

#[test]
fn exit_says_farewell_and_quits() {
    let (actions, session) = drive("exit", home(), vec![Event::Done, Event::Done]);
    assert_eq!(actions, vec![Action::Farewell, Action::Quit]);
    assert!(session.exit_requested());
}

#[test]
fn exit_cuts_the_rest_of_the_line_short() {
    let (actions, session) = drive("exit | ls > out.txt", home(), vec![Event::Done, Event::Done]);
    assert_eq!(actions, vec![Action::Farewell, Action::Quit]);
    assert!(session.exit_requested());
}

#[test]
fn exit_behind_a_process_waits_for_it() {
    let replies = vec![Event::Done, Event::Done, Event::Done];
    let (actions, session) = drive("ls | exit | wc > out.txt", home(), replies);
    assert_eq!(
        actions,
        vec![
            start(0, "ls", &[], Input::Terminal, Output::Pipe),
            Action::Farewell,
            Action::Wait { stage: 0 },
            Action::Quit,
        ]
    );
    assert!(session.exit_requested());
}

#[test]
fn a_process_that_does_not_start_breaks_the_chain() {
    let replies = vec![Event::Done, Event::Failed, Event::Done, Event::Done, Event::Done];
    let (actions, _) = drive("ls | nosuchprogram | wc -l", home(), replies);
    assert_eq!(
        actions,
        vec![
            start(0, "ls", &[], Input::Terminal, Output::Pipe),
            start(1, "nosuchprogram", &[], Input::Pipe { from: 0 }, Output::Pipe),
            Action::Report { failure: Failure::Start },
            start(2, "wc", &["-l"], Input::Terminal, Output::Terminal),
            Action::Wait { stage: 2 },
            Action::Prompt,
        ]
    );
}

#[test]
fn a_single_command_that_does_not_start_is_reported() {
    let (actions, _) = drive("nosuchprogram", home(), vec![Event::Failed, Event::Done]);
    assert_eq!(
        actions,
        vec![
            start(0, "nosuchprogram", &[], Input::Terminal, Output::Terminal),
            Action::Report { failure: Failure::Start },
            Action::Prompt,
        ]
    );
}

#[test]
fn clear_lets_go_of_the_handle_before_it() {
    let replies = vec![Event::Done, Event::Done, Event::Done, Event::Done, Event::Done];
    let (actions, _) = drive("ls | clear | wc", home(), replies);
    assert_eq!(
        actions,
        vec![
            start(0, "ls", &[], Input::Terminal, Output::Pipe),
            Action::ClearScreen,
            Action::Discard { stage: 0 },
            start(2, "wc", &[], Input::Terminal, Output::Terminal),
            Action::Wait { stage: 2 },
            Action::Prompt,
        ]
    );
}

#[test]
fn clear_alone_clears_the_screen() {
    let (actions, _) = drive("clear", home(), vec![Event::Done]);
    assert_eq!(actions, vec![Action::ClearScreen, Action::Prompt]);
}

#[test]
fn cd_goes_to_the_named_directory() {
    let replies = vec![Event::Moved { cwd: "/tmp".to_string() }];
    let (actions, session) = drive("cd /tmp ignored", home(), replies);
    assert_eq!(actions, vec![Action::ChangeDir { target: "/tmp".to_string() }, Action::Prompt]);
    assert_eq!(session.cwd(), "/tmp");
    assert_eq!(session.previous(), "/home/user");
}

#[test]
fn cd_without_an_argument_goes_to_the_root() {
    let replies = vec![Event::Moved { cwd: "/".to_string() }];
    let (actions, session) = drive("cd", home(), replies);
    assert_eq!(actions, vec![Action::ChangeDir { target: "/".to_string() }, Action::Prompt]);
    assert_eq!(session.cwd(), "/");
}

#[test]
fn cd_dash_restores_the_directory_before_cd_tmp() {
    let (_, session) = drive("cd /tmp", home(), vec![Event::Moved { cwd: "/tmp".to_string() }]);
    let replies = vec![Event::Moved { cwd: "/home/user".to_string() }];
    let (actions, session) = drive("cd -", session, replies);
    assert_eq!(
        actions,
        vec![Action::ChangeDir { target: "/home/user".to_string() }, Action::Prompt]
    );
    assert_eq!(session.cwd(), "/home/user");
    assert_eq!(session.previous(), "/tmp");
}

#[test]
fn cd_dash_in_a_new_session_stays() {
    let (actions, _) = drive("cd -", home(), vec![Event::Moved { cwd: "/home/user".to_string() }]);
    assert_eq!(
        actions,
        vec![Action::ChangeDir { target: "/home/user".to_string() }, Action::Prompt]
    );
}

#[test]
fn cd_to_a_missing_directory_changes_nothing_and_is_reported() {
    let (actions, session) = drive("cd nonexistent-path", home(), vec![Event::Failed, Event::Done]);
    assert_eq!(
        actions,
        vec![
            Action::ChangeDir { target: "nonexistent-path".to_string() },
            Action::Report { failure: Failure::Directory },
            Action::Prompt,
        ]
    );
    assert_eq!(session.cwd(), "/home/user");
    assert!(!session.exit_requested());
    let (actions, _) = drive("ls", session, vec![Event::Done, Event::Done]);
    assert_eq!(
        actions,
        vec![
            start(0, "ls", &[], Input::Terminal, Output::Terminal),
            Action::Wait { stage: 0 },
            Action::Prompt,
        ]
    );
}

#[test]
fn two_cds_on_one_line_remember_the_directory_between_them() {
    let replies =
        vec![Event::Moved { cwd: "/a".to_string() }, Event::Moved { cwd: "/b".to_string() }];
    let (actions, session) = drive("cd /a | cd /b", home(), replies);
    assert_eq!(
        actions,
        vec![
            Action::ChangeDir { target: "/a".to_string() },
            Action::ChangeDir { target: "/b".to_string() },
            Action::Prompt,
        ]
    );
    assert_eq!(session.cwd(), "/b");
    assert_eq!(session.previous(), "/a");
}

#[test]
fn cd_behind_a_process_lets_go_of_its_handle() {
    let replies = vec![
        Event::Done,
        Event::Failed,
        Event::Done,
        Event::Done,
        Event::Done,
        Event::Done,
    ];
    let (actions, session) = drive("ls | cd /nowhere | wc", home(), replies);
    assert_eq!(
        actions,
        vec![
            start(0, "ls", &[], Input::Terminal, Output::Pipe),
            Action::ChangeDir { target: "/nowhere".to_string() },
            Action::Report { failure: Failure::Directory },
            Action::Discard { stage: 0 },
            start(2, "wc", &[], Input::Terminal, Output::Terminal),
            Action::Wait { stage: 2 },
            Action::Prompt,
        ]
    );
    assert_eq!(session.cwd(), "/home/user");
}

#[test]
fn the_file_is_opened_after_a_cd_that_comes_first() {
    let replies =
        vec![Event::Moved { cwd: "/tmp".to_string() }, Event::Done, Event::Done, Event::Done];
    let (actions, _) = drive("cd /tmp | ls > out.txt", home(), replies);
    assert_eq!(
        actions,
        vec![
            Action::ChangeDir { target: "/tmp".to_string() },
            Action::OpenSink { path: "out.txt".to_string() },
            start(1, "ls", &[], Input::Terminal, Output::File("out.txt".to_string())),
            Action::Wait { stage: 1 },
            Action::Prompt,
        ]
    );
}

#[test]
fn a_finished_run_stays_finished() {
    let pipeline = parse_line("clear").unwrap();
    let (run, session, action) = Run::begin(pipeline, home());
    assert_eq!(action, Action::ClearScreen);
    let (run, session, action) = run.reply(session, Event::Done);
    assert_eq!(action, Action::Prompt);
    assert!(run.is_finished());
    let (run, _, action) = run.reply(session, Event::Failed);
    assert_eq!(action, Action::Prompt);
    assert!(run.is_finished());
}

fn copy_of(stages: &[Stage]) -> Vec<(String, Vec<String>, Option<String>)> {
    stages.iter().map(|s| (s.command.clone(), s.args.clone(), s.file.clone())).collect()
}

/// Runs `line` with the failures that `mask` names, one bit for each action,
/// and holds every action against the handle and the file that the driver
/// would hold at that point.
fn run_and_watch(line: &str, mask: u32) {
    let pipeline = parse_line(line).expect("the line is a pipeline");
    let stages = copy_of(pipeline.stages());
    let redirects = stages.iter().any(|s| s.2.is_some());
    let (mut run, mut session, mut action) = Run::begin(pipeline, home());
    let mut held: Option<usize> = None;
    let mut opened = false;
    let mut turn = 0;
    loop {
        let fails = (mask >> turn) & 1 == 1;
        let event = match &action {
            Action::Launch { stage, command, args, input, output } => {
                let expected = match held {
                    Some(from) => Input::Pipe { from },
                    None => Input::Terminal,
                };
                assert_eq!(*input, expected, "line {:?}, mask {:#b}", line, mask);
                if let Some(from) = held {
                    assert_eq!(from + 1, *stage);
                }
                assert_eq!(*command, stages[*stage].0);
                assert_eq!(*args, stages[*stage].1);
                match output {
                    Output::File(path) => {
                        assert!(opened);
                        assert_eq!(Some(path.clone()), stages[*stage].2);
                    }
                    Output::Pipe => assert!(*stage + 1 < stages.len()),
                    Output::Terminal => assert_eq!(*stage + 1, stages.len()),
                }
                if redirects {
                    assert!(opened, "line {:?}, mask {:#b}", line, mask);
                }
                held = if fails { None } else { Some(*stage) };
                if fails { Event::Failed } else { Event::Done }
            }
            Action::OpenSink { path } => {
                assert!(!opened);
                assert!(held.is_none());
                assert_eq!(Some(path.clone()), stages[stages.len() - 1].2);
                opened = !fails;
                if fails { Event::Failed } else { Event::Done }
            }
            Action::ChangeDir { .. } => {
                if fails { Event::Failed } else { Event::Moved { cwd: "/elsewhere".to_string() } }
            }
            Action::Discard { stage } | Action::Wait { stage } => {
                assert_eq!(held, Some(*stage), "line {:?}, mask {:#b}", line, mask);
                held = None;
                Event::Done
            }
            Action::Prompt | Action::Quit => {
                assert!(held.is_none(), "line {:?}, mask {:#b}", line, mask);
                assert!(run.is_finished());
                assert_eq!(action == Action::Quit, session.exit_requested());
                if !stages.iter().any(|s| s.0 == "cd" || s.0 == "exit") {
                    assert_eq!(session.cwd(), "/home/user");
                    assert_eq!(session.previous(), "/home/user");
                    assert!(!session.exit_requested());
                }
                return;
            }
            Action::ClearScreen | Action::Farewell | Action::Report { .. } => Event::Done,
        };
        turn += 1;
        assert!(turn <= 3 * stages.len() + 1, "line {:?} takes too long", line);
        let (r, s, a) = run.reply(session, event);
        run = r;
        session = s;
        action = a;
    }
}

#[test]
fn every_run_keeps_its_handles_in_order_and_ends() {
    let lines = [
        "ls",
        "ls > out",
        "a | b | c",
        "a | b | c > out",
        "a | clear | b",
        "a | cd /x | b > out",
        "cd /x | a > out",
        "clear | cd - | a | b",
        "a | exit | b",
        "a | b | exit",
        "exit > out",
        "a | cd | clear | b | c > out",
    ];
    for line in lines {
        for mask in 0..(1u32 << 10) {
            run_and_watch(line, mask);
        }
    }
}
