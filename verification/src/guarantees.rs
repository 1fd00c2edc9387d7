//! What holds of every run: theorems about the engine, proved from its
//! definition. A run is looked at from outside, as the actions that the
//! engine names while the driver answers them.

use crate::engine::{
    after_builtin, begin_step, cd_target, end, enter, finish, has_exit, initial, input_of, launch,
    next_stage, output_of, reply_step, report, sink_of, ActionView, EventView, Failure, InputView,
    OutputView, Phase, RunView, SessionView, Step,
};
use crate::stage::{
    kind_of, marker, parse_result, raw_stage, redirect_keeps_stage_without_marker, resolved,
    tokenized, well_formed, CommandKind, ParseError, StageView,
};
use crate::text::{delimiter_at, one_segment_without_delimiter, segments, tokens, trimmed};
use vstd::prelude::*;

verus! {

/// The actions of a run from `step` on, while the driver answers each action
/// with the next of `replies`. The run is over with the action that ends the
/// line; it is cut short where the replies run out.
pub open spec fn actions_from(step: Step, replies: Seq<EventView>) -> Seq<ActionView>
    decreases replies.len(),
{
    if step.action is Prompt || step.action is Quit || replies.len() == 0 {
        seq![step.action]
    } else {
        seq![step.action] + actions_from(
            reply_step(step.run, step.session, replies[0]),
            replies.drop_first(),
        )
    }
}

/// The step at which such a run stops.
pub open spec fn last_step(step: Step, replies: Seq<EventView>) -> Step
    decreases replies.len(),
{
    if step.action is Prompt || step.action is Quit || replies.len() == 0 {
        step
    } else {
        last_step(reply_step(step.run, step.session, replies[0]), replies.drop_first())
    }
}

/// The actions that a pipeline asks for, in order.
pub open spec fn line_actions(
    stages: Seq<StageView>,
    session: SessionView,
    replies: Seq<EventView>,
) -> Seq<ActionView> {
    actions_from(begin_step(stages, session), replies)
}

/// The session that a pipeline leaves behind.
pub open spec fn line_session(
    stages: Seq<StageView>,
    session: SessionView,
    replies: Seq<EventView>,
) -> SessionView {
    last_step(begin_step(stages, session), replies).session
}

/// The action that ends a line in this session.
pub open spec fn ending(session: SessionView) -> ActionView {
    if session.exit_requested {
        ActionView::Quit
    } else {
        ActionView::Prompt
    }
}

/// Whether every stage is an external command.
pub open spec fn all_external(stages: Seq<StageView>) -> bool {
    forall|k: int|
        0 <= k < stages.len() ==> #[trigger] kind_of(stages[k].command) == CommandKind::External
}

/// Whether no reply reports a failure.
pub open spec fn none_failed(replies: Seq<EventView>) -> bool {
    forall|i: int| 0 <= i < replies.len() ==> !((#[trigger] replies[i]) is Failed)
}

/// The start of stage `k` in an unbroken chain: the first process reads from
/// the terminal, every other one from the process before it.
pub open spec fn chained_launch(stages: Seq<StageView>, k: int) -> ActionView {
    ActionView::Launch {
        stage: k,
        command: stages[k].command,
        args: stages[k].args,
        input: if k == 0 {
            InputView::Terminal
        } else {
            InputView::Pipe { from: k - 1 }
        },
        output: output_of(stages, k),
    }
}

proof fn lemma_chain(run: RunView, session: SessionView, replies: Seq<EventView>)
    requires
        run.stages.len() >= 1,
        0 <= run.at <= run.stages.len(),
        run.pending == if run.at == 0 {
            None
        } else {
            Some(run.at - 1)
        },
        run.sink is None,
        all_external(run.stages),
        none_failed(replies),
        replies.len() >= run.stages.len() - run.at + 1,
    ensures
        ({
            let actions = actions_from(enter(run, session), replies);
            let left = run.stages.len() - run.at;
            &&& actions.len() == left + 2
            &&& forall|i: int|
                0 <= i < left ==> #[trigger] actions[i] == chained_launch(run.stages, run.at + i)
            &&& actions[left] == ActionView::Wait { stage: run.stages.len() - 1 }
            &&& actions[left + 1] == ending(session)
        }),
    decreases run.stages.len() - run.at,
{
    let stages = run.stages;
    let k = run.at;
    let first = enter(run, session);
    let rest = replies.drop_first();
    assert(!(replies[0] is Failed));
    if k < stages.len() {
        assert(kind_of(stages[k].command) == CommandKind::External);
        assert(first == launch(run, session));
        let second = reply_step(first.run, first.session, replies[0]);
        let onward = next_stage(RunView { pending: Some(k), ..first.run });
        assert(second == enter(onward, session));
        assert(none_failed(rest)) by {
            assert forall|i: int| 0 <= i < rest.len() implies !((#[trigger] rest[i]) is Failed) by {
                assert(rest[i] == replies[i + 1]);
            }
        }
        lemma_chain(onward, session, rest);
        let tail = actions_from(second, rest);
        let actions = actions_from(first, replies);
        assert(actions == seq![first.action] + tail);
        assert(first.action == chained_launch(stages, k));
        assert forall|i: int| 0 <= i < stages.len() - k implies #[trigger] actions[i]
            == chained_launch(stages, k + i) by {
            if i > 0 {
                assert(tail[i - 1] == chained_launch(stages, (k + 1) + (i - 1)));
                assert(actions[i] == tail[i - 1]);
            } else {
                assert(actions[0] == first.action);
            }
        }
        assert(actions[stages.len() - k] == tail[stages.len() - (k + 1)]);
        assert(actions[stages.len() - k + 1] == tail[stages.len() - (k + 1) + 1]);
    } else {
        assert(first == finish(run, session));
        let second = reply_step(first.run, first.session, replies[0]);
        assert(second == end(first.run, session));
        assert(actions_from(second, rest) == seq![second.action]);
        let actions = actions_from(first, replies);
        assert(actions == seq![first.action] + seq![second.action]);
    }
}

/// A line that is one external command, with no stage delimiter and no
/// redirect marker in it, is a pipeline of one stage, and the engine starts
/// exactly one process for it, with the terminal as its input and as its
/// output. If the process starts it is waited for; if not, the failure is
/// reported. Then the line is over.
pub proof fn plain_command_starts_one_process(
    line: Seq<char>,
    session: SessionView,
    replies: Seq<EventView>,
)
    requires
        forall|i: int| !delimiter_at(trimmed(line), i),
        !tokens(trimmed(line)).contains(marker()),
        tokens(trimmed(line)).len() > 0,
        kind_of(tokens(trimmed(line))[0]) == CommandKind::External,
        replies.len() >= 2,
    ensures
        ({
            let words = tokens(trimmed(line));
            let stage = raw_stage(words);
            let start = ActionView::Launch {
                stage: 0,
                command: words[0],
                args: words.subrange(1, words.len() as int),
                input: InputView::Terminal,
                output: OutputView::Terminal,
            };
            &&& parse_result(line) == Ok::<Seq<StageView>, ParseError>(seq![stage])
            &&& line_actions(seq![stage], session, replies) == if replies[0] is Failed {
                seq![start, ActionView::Report { failure: Failure::Start }, ending(session)]
            } else {
                seq![start, ActionView::Wait { stage: 0 }, ending(session)]
            }
        }),
{
    let text = trimmed(line);
    let words = tokens(text);
    let stage = raw_stage(words);
    let stages = seq![stage];
    one_segment_without_delimiter(text);
    let segs = segments(text);
    assert(tokenized(segs, 0) == Ok::<Seq<StageView>, ParseError>(Seq::empty()));
    assert(Seq::<StageView>::empty().push(stage) =~= stages);
    assert(tokenized(segs, 1) == Ok::<Seq<StageView>, ParseError>(stages));
    assert(!stage.args.contains(marker())) by {
        if stage.args.contains(marker()) {
            let j = choose|j: int| 0 <= j < stage.args.len() && stage.args[j] == marker();
            assert(words[j + 1] == marker());
        }
    }
    redirect_keeps_stage_without_marker(stage);
    assert(resolved(stages, 0) == Ok::<Seq<StageView>, ParseError>(Seq::empty()));
    assert(resolved(stages, 1) == Ok::<Seq<StageView>, ParseError>(stages));

    lemma_no_exit(stages);
    let run = initial(stages);
    let first = begin_step(stages, session);
    assert(first == launch(run, session));
    let second = reply_step(first.run, first.session, replies[0]);
    let rest = replies.drop_first();
    let third = reply_step(second.run, second.session, rest[0]);
    assert(third.action == ending(session));
    assert(actions_from(third, rest.drop_first()) == seq![third.action]);
    assert(actions_from(second, rest) == seq![second.action] + seq![third.action]);
    assert(line_actions(stages, session, replies) =~= seq![
        first.action,
        second.action,
        third.action,
    ]);
}

proof fn lemma_no_exit(stages: Seq<StageView>)
    requires
        all_external(stages),
    ensures
        !has_exit(stages),
{
}

/// A pipeline of external commands that redirects nothing: as long as every
/// process starts, the engine starts one process for each stage, in order.
/// The first reads from the terminal and every other one from the process
/// before it; the last writes to the terminal and every other one to a pipe.
/// Then the last process is waited for, and the line is over.
pub proof fn unbroken_pipeline_chains_every_stage(
    stages: Seq<StageView>,
    session: SessionView,
    replies: Seq<EventView>,
)
    requires
        stages.len() >= 1,
        all_external(stages),
        forall|k: int| 0 <= k < stages.len() ==> (#[trigger] stages[k]).file is None,
        none_failed(replies),
        replies.len() >= stages.len() + 1,
    ensures
        ({
            let actions = line_actions(stages, session, replies);
            let n = stages.len() as int;
            &&& actions.len() == n + 2
            &&& forall|k: int|
                0 <= k < n ==> #[trigger] actions[k] == (ActionView::Launch {
                    stage: k,
                    command: stages[k].command,
                    args: stages[k].args,
                    input: if k == 0 {
                        InputView::Terminal
                    } else {
                        InputView::Pipe { from: k - 1 }
                    },
                    output: if k == n - 1 {
                        OutputView::Terminal
                    } else {
                        OutputView::Pipe
                    },
                })
            &&& actions[n] == ActionView::Wait { stage: n - 1 }
            &&& actions[n + 1] == ending(session)
        }),
{
    lemma_no_exit(stages);
    lemma_chain(initial(stages), session, replies);
    let actions = line_actions(stages, session, replies);
    assert forall|k: int| 0 <= k < stages.len() implies #[trigger] actions[k] == chained_launch(
        stages,
        k,
    ) by {
        assert(actions[k] == chained_launch(stages, 0 + k));
    }
}

/// A pipeline of external commands whose last stage redirects its output to
/// a file: the file is opened before any process is started, and as long as
/// that and every start succeed, the processes are chained as without a
/// redirection, but that the last one writes to the file.
pub proof fn redirected_pipeline_writes_to_the_file(
    stages: Seq<StageView>,
    path: Seq<char>,
    session: SessionView,
    replies: Seq<EventView>,
)
    requires
        stages.len() >= 1,
        all_external(stages),
        stages.last().file == Some(path),
        none_failed(replies),
        replies.len() >= stages.len() + 2,
    ensures
        ({
            let actions = line_actions(stages, session, replies);
            let n = stages.len() as int;
            &&& actions.len() == n + 3
            &&& actions[0] == ActionView::OpenSink { path }
            &&& forall|i: int| 1 <= i <= n ==> #[trigger] actions[i] == chained_launch(stages, i - 1)
            &&& actions[n] == (ActionView::Launch {
                stage: n - 1,
                command: stages[n - 1].command,
                args: stages[n - 1].args,
                input: if n == 1 {
                    InputView::Terminal
                } else {
                    InputView::Pipe { from: n - 2 }
                },
                output: OutputView::File(path),
            })
            &&& actions[n + 1] == ActionView::Wait { stage: n - 1 }
            &&& actions[n + 2] == ending(session)
        }),
{
    lemma_no_exit(stages);
    let n = stages.len() as int;
    let run = initial(stages);
    assert(run.sink == Some(path));
    assert(kind_of(stages[0].command) == CommandKind::External);
    let first = begin_step(stages, session);
    assert(first.action == ActionView::OpenSink { path });
    let rest = replies.drop_first();
    assert(none_failed(rest)) by {
        assert forall|i: int| 0 <= i < rest.len() implies !((#[trigger] rest[i]) is Failed) by {
            assert(rest[i] == replies[i + 1]);
        }
    }
    assert(!(replies[0] is Failed));
    let opened = RunView { sink: None, ..first.run };
    let second = reply_step(first.run, first.session, replies[0]);
    assert(second == launch(opened, session));
    assert(second == enter(opened, session));
    lemma_chain(opened, session, rest);
    let tail = actions_from(second, rest);
    let actions = line_actions(stages, session, replies);
    assert(actions == seq![first.action] + tail);
    assert forall|i: int| 1 <= i <= n implies #[trigger] actions[i] == chained_launch(
        stages,
        i - 1,
    ) by {
        assert(tail[i - 1] == chained_launch(stages, 0 + (i - 1)));
        assert(actions[i] == tail[i - 1]);
    }
    assert(actions[n] == chained_launch(stages, n - 1));
    assert(actions[n + 1] == tail[n]);
    assert(actions[n + 2] == tail[n + 1]);
}

/// `cd -` leads back: whatever directory a `cd` was asked for, and whether
/// or not it got there, a `cd -` on a later line asks for the directory in
/// which the session was before that `cd`.
pub proof fn cd_dash_leads_back(
    session: SessionView,
    first: StageView,
    replies: Seq<EventView>,
    back: StageView,
)
    requires
        kind_of(first.command) == CommandKind::ChangeDir,
        kind_of(back.command) == CommandKind::ChangeDir,
        back.args.len() > 0,
        back.args[0] == "-"@,
        replies.len() >= 3,
    ensures
        ({
            let between = line_session(seq![first], session, replies);
            &&& line_actions(seq![first], session, replies)[0] == ActionView::ChangeDir {
                target: cd_target(first.args, session.previous),
            }
            &&& replies[0] matches EventView::Moved { cwd } ==> between.cwd == cwd
            &&& begin_step(seq![back], between).action == ActionView::ChangeDir {
                target: session.cwd,
            }
        }),
{
    let stages = seq![first];
    let a = begin_step(stages, session);
    assert(a.action == ActionView::ChangeDir { target: cd_target(first.args, session.previous) });
    assert(a.session.previous == session.cwd);
    let b = reply_step(a.run, a.session, replies[0]);
    let r1 = replies.drop_first();
    let c = reply_step(b.run, b.session, r1[0]);
    let r2 = r1.drop_first();
    if replies[0] is Failed {
        assert(b == report(a.run, a.session, Failure::Directory));
        assert(c.action == ending(session));
        assert(last_step(c, r2) == c);
        assert(last_step(b, r1) == c);
        assert(last_step(a, replies) == c);
    } else {
        assert(b.action == ending(session));
        assert(last_step(b, r1) == b);
        assert(last_step(a, replies) == b);
    }
    assert(line_session(stages, session, replies).previous == session.cwd);
}

/// A `cd` that fails changes nothing but the directory that `cd -` leads
/// to: the working directory stays, the failure is reported, and the line
/// ends as any other, so that the next line is read.
pub proof fn failed_cd_keeps_the_directory(
    session: SessionView,
    stage: StageView,
    replies: Seq<EventView>,
)
    requires
        kind_of(stage.command) == CommandKind::ChangeDir,
        replies.len() >= 2,
        replies[0] is Failed,
    ensures
        line_actions(seq![stage], session, replies) == seq![
            ActionView::ChangeDir { target: cd_target(stage.args, session.previous) },
            ActionView::Report { failure: Failure::Directory },
            ending(session),
        ],
        line_session(seq![stage], session, replies) == (SessionView {
            previous: session.cwd,
            ..session
        }),
{
    let stages = seq![stage];
    let a = begin_step(stages, session);
    let b = reply_step(a.run, a.session, replies[0]);
    let r1 = replies.drop_first();
    let c = reply_step(b.run, b.session, r1[0]);
    let r2 = r1.drop_first();
    assert(b == report(a.run, a.session, Failure::Directory));
    assert(c.action == ending(session));
    assert(actions_from(c, r2) == seq![c.action]);
    assert(actions_from(b, r1) == seq![b.action] + seq![c.action]);
    assert(last_step(c, r2) == c);
    assert(last_step(b, r1) == c);
    assert(line_actions(stages, session, replies) =~= seq![a.action, b.action, c.action]);
}

/// `exit` ends the line and the shell: when the first stage is `exit`, the
/// farewell is said, nothing behind it runs, no process is started, and the
/// line ends with the order to quit.
pub proof fn exit_starts_nothing(
    stages: Seq<StageView>,
    session: SessionView,
    replies: Seq<EventView>,
)
    requires
        stages.len() >= 1,
        kind_of(stages[0].command) == CommandKind::Exit,
        replies.len() >= 1,
    ensures
        line_actions(stages, session, replies) == seq![ActionView::Farewell, ActionView::Quit],
        line_session(stages, session, replies) == (SessionView {
            exit_requested: true,
            ..session
        }),
{
    let a = begin_step(stages, session);
    let b = reply_step(a.run, a.session, replies[0]);
    let rest = replies.drop_first();
    assert(b == end(a.run, a.session));
    assert(actions_from(b, rest) == seq![b.action]);
    assert(last_step(b, rest) == b);
    assert(line_actions(stages, session, replies) =~= seq![a.action, b.action]);
}

/// Whether every process among `actions` is started only after the file of
/// the redirection was opened, and opened with success.
pub open spec fn starts_follow_opening(actions: Seq<ActionView>, replies: Seq<EventView>) -> bool {
    forall|i: int|
        0 <= i < actions.len() && (#[trigger] actions[i]) is Launch ==> exists|j: int|
            0 <= j < i && j < replies.len() && (#[trigger] actions[j]) is OpenSink && !(replies[j]
                is Failed)
}

/// The steps of a line on which the file is still to be opened: no process
/// has been started, and none is being started.
spec fn before_opening(step: Step) -> bool {
    &&& step.run.sink is Some
    &&& step.run.pending is None
    &&& !(step.action is Launch)
    &&& match step.run.phase {
        Phase::Opening => step.action is OpenSink,
        Phase::Leaving | Phase::Clearing | Phase::Moving | Phase::Finished => true,
        Phase::Reporting(failure) => failure != Failure::Start,
        _ => false,
    }
}

proof fn lemma_quiet_until_opened(step: Step, replies: Seq<EventView>)
    requires
        before_opening(step),
    ensures
        starts_follow_opening(actions_from(step, replies), replies),
    decreases replies.len(),
{
    let actions = actions_from(step, replies);
    if step.action is Prompt || step.action is Quit || replies.len() == 0 {
        assert(actions == seq![step.action]);
    } else {
        let next = reply_step(step.run, step.session, replies[0]);
        let rest = replies.drop_first();
        let tail = actions_from(next, rest);
        assert(actions == seq![step.action] + tail);
        if step.run.phase is Opening && !(replies[0] is Failed) {
            assert forall|i: int| 0 <= i < actions.len() && (#[trigger] actions[i]) is Launch implies
                exists|j: int|
                0 <= j < i && j < replies.len() && (#[trigger] actions[j]) is OpenSink && !(
                replies[j] is Failed) by {
                assert(actions[0] is OpenSink);
            }
        } else {
            assert(before_opening(next));
            lemma_quiet_until_opened(next, rest);
            assert forall|i: int| 0 <= i < actions.len() && (#[trigger] actions[i]) is Launch implies
                exists|j: int|
                0 <= j < i && j < replies.len() && (#[trigger] actions[j]) is OpenSink && !(
                replies[j] is Failed) by {
                assert(actions[i] == tail[i - 1]);
                let found = choose|j: int|
                    0 <= j < i - 1 && j < rest.len() && (#[trigger] tail[j]) is OpenSink && !(
                    rest[j] is Failed);
                assert(actions[found + 1] == tail[found]);
                assert(replies[found + 1] == rest[found]);
                assert(actions[found + 1] is OpenSink);
            }
        }
    }
}

/// On a line that redirects its output, no process is started before the
/// file was opened: whatever the stages are and however the driver answers,
/// every start of a process comes after the file's opening, and after one
/// that succeeded. So if the file cannot be opened, nothing is started.
pub proof fn file_is_opened_before_any_process(
    stages: Seq<StageView>,
    session: SessionView,
    replies: Seq<EventView>,
)
    requires
        sink_of(stages) is Some,
    ensures
        starts_follow_opening(line_actions(stages, session, replies), replies),
{
    lemma_quiet_until_opened(begin_step(stages, session), replies);
}

/// Whether `action`, if it starts a process, starts it as the pipeline
/// says: for a stage that exists, with that stage's command and arguments,
/// with the output that falls to that stage, and with its input either from
/// the terminal or from the stage just before it.
pub open spec fn sound_launch(stages: Seq<StageView>, action: ActionView) -> bool {
    action matches ActionView::Launch { stage, command, args, input, output } ==> {
        &&& 0 <= stage < stages.len()
        &&& command == stages[stage].command
        &&& args == stages[stage].args
        &&& output == output_of(stages, stage)
        &&& input == InputView::Terminal || (stage > 0 && input == InputView::Pipe {
            from: stage - 1,
        })
    }
}

/// What holds of every step of a run on `stages`: a held handle is that of
/// the stage just before the current one, and a start is sound.
spec fn in_step(stages: Seq<StageView>, step: Step) -> bool {
    &&& step.run.stages == stages
    &&& 0 <= step.run.at
    &&& step.run.pending matches Some(p) ==> p == step.run.at - 1 && p >= 0
    &&& sound_launch(stages, step.action)
    &&& step.action matches ActionView::Launch { stage, .. } ==> stage == step.run.at
        && step.run.phase is Launching
    &&& step.run.phase is Launching || step.run.phase is Opening ==> step.run.at < stages.len()
    &&& step.run.phase is Launching || step.run.phase is Discarding || step.run.phase
        == Phase::Reporting(Failure::Start) ==> step.run.pending is None
}

proof fn lemma_launches_are_sound(stages: Seq<StageView>, step: Step, replies: Seq<EventView>)
    requires
        in_step(stages, step),
    ensures
        forall|i: int|
            0 <= i < actions_from(step, replies).len() ==> sound_launch(
                stages,
                #[trigger] actions_from(step, replies)[i],
            ),
    decreases replies.len(),
{
    let actions = actions_from(step, replies);
    if step.action is Prompt || step.action is Quit || replies.len() == 0 {
        assert(actions == seq![step.action]);
    } else {
        let next = reply_step(step.run, step.session, replies[0]);
        let rest = replies.drop_first();
        let tail = actions_from(next, rest);
        assert(actions == seq![step.action] + tail);
        assert(in_step(stages, next));
        lemma_launches_are_sound(stages, next, rest);
        assert forall|i: int| 0 <= i < actions.len() implies sound_launch(
            stages,
            #[trigger] actions[i],
        ) by {
            if i > 0 {
                assert(actions[i] == tail[i - 1]);
            }
        }
    }
}

/// Every process is started as the pipeline says, whatever the stages are
/// and however the driver answers: it is the process of one of the stages,
/// with that stage's command and arguments; it writes to the stage's file
/// if it has one, else to a pipe if a stage follows, else to the terminal;
/// and it reads from the terminal or from the stage just before it.
pub proof fn launches_are_sound(
    stages: Seq<StageView>,
    session: SessionView,
    replies: Seq<EventView>,
)
    ensures
        forall|i: int|
            0 <= i < line_actions(stages, session, replies).len() ==> sound_launch(
                stages,
                #[trigger] line_actions(stages, session, replies)[i],
            ),
{
    lemma_launches_are_sound(stages, begin_step(stages, session), replies);
}

/// In a pipeline that the data model accepts, every stage but the last
/// writes to a pipe, so that a process which reads from the stage before it
/// finds a pipe to read from.
pub proof fn inner_stages_write_to_pipes(stages: Seq<StageView>, k: int)
    requires
        well_formed(stages),
        0 <= k < stages.len() - 1,
    ensures
        output_of(stages, k) == OutputView::Pipe,
{
    assert(stages[k].file is None);
}

/// Whether `action` treats the process handle rightly when `held` is the
/// one that the driver holds: a process reads from the held handle, or from
/// the terminal if none is held; only the held handle is let go or waited
/// for; and the line does not end while a handle is held.
pub open spec fn fits(held: Option<int>, action: ActionView) -> bool {
    match action {
        ActionView::Launch { input, .. } => input == input_of(held),
        ActionView::Discard { stage } => held == Some(stage),
        ActionView::Wait { stage } => held == Some(stage),
        ActionView::Prompt | ActionView::Quit => held is None,
        _ => true,
    }
}

/// The handle that the driver holds once `action` is done and answered with
/// `reply`. A start uses up the held handle and, if it succeeds, leaves the
/// new one; letting go and waiting use the handle up; nothing else touches
/// it.
pub open spec fn held_after(held: Option<int>, action: ActionView, reply: EventView) -> Option<
    int,
> {
    match action {
        ActionView::Launch { stage, .. } => if reply is Failed {
            None
        } else {
            Some(stage)
        },
        ActionView::Discard { .. } | ActionView::Wait { .. } => None,
        _ => held,
    }
}

/// Whether every one of `actions` fits the handle that is held when its
/// turn comes, beginning with `held`.
pub open spec fn handles_fit(
    held: Option<int>,
    actions: Seq<ActionView>,
    replies: Seq<EventView>,
) -> bool
    decreases actions.len(),
{
    if actions.len() == 0 {
        true
    } else {
        &&& fits(held, actions[0])
        &&& replies.len() > 0 ==> handles_fit(
            held_after(held, actions[0], replies[0]),
            actions.drop_first(),
            replies.drop_first(),
        )
    }
}

/// How the state of the engine reflects the handle that the driver holds
/// when it is about to perform the step's action.
spec fn tracks(step: Step, held: Option<int>) -> bool {
    &&& fits(held, step.action)
    &&& step.run.sink is Some ==> held is None
    &&& match step.action {
        ActionView::Launch { stage, .. } => {
            &&& step.run.phase is Launching
            &&& step.run.at == stage
            &&& step.run.pending is None
            &&& step.run.sink is None
        },
        ActionView::Discard { .. } => step.run.phase is Discarding && step.run.pending is None,
        ActionView::Wait { .. } => step.run.phase is Waiting && step.run.pending is None,
        ActionView::Prompt | ActionView::Quit => step.run.phase is Finished && step.run.pending
            is None,
        ActionView::OpenSink { .. } => step.run.phase is Opening && step.run.sink is Some
            && step.run.pending == held,
        ActionView::ChangeDir { .. } => step.run.phase is Moving && step.run.pending == held,
        ActionView::ClearScreen => step.run.phase is Clearing && step.run.pending == held,
        ActionView::Farewell => step.run.phase is Leaving && step.run.pending == held,
        ActionView::Report { failure } => step.run.phase == Phase::Reporting(failure)
            && step.run.pending == held && (failure != Failure::Directory ==> held is None),
    }
}

proof fn lemma_enter_tracks(run: RunView, session: SessionView)
    requires
        run.sink is Some ==> run.pending is None,
    ensures
        tracks(enter(run, session), run.pending),
{
}

proof fn lemma_handles_fit(step: Step, held: Option<int>, replies: Seq<EventView>)
    requires
        tracks(step, held),
    ensures
        handles_fit(held, actions_from(step, replies), replies),
    decreases replies.len(),
{
    let actions = actions_from(step, replies);
    if step.action is Prompt || step.action is Quit || replies.len() == 0 {
        assert(actions == seq![step.action]);
        if replies.len() > 0 {
            assert(actions.drop_first().len() == 0);
            assert(handles_fit(
                held_after(held, actions[0], replies[0]),
                actions.drop_first(),
                replies.drop_first(),
            ));
        }
    } else {
        let next = reply_step(step.run, step.session, replies[0]);
        let rest = replies.drop_first();
        let tail = actions_from(next, rest);
        let then = held_after(held, step.action, replies[0]);
        assert(actions == seq![step.action] + tail);
        assert(actions.drop_first() =~= tail);
        assert(tracks(next, then)) by {
            match step.run.phase {
                Phase::Launching => {
                    if !(replies[0] is Failed) {
                        lemma_enter_tracks(
                            next_stage(RunView { pending: Some(step.run.at), ..step.run }),
                            step.session,
                        );
                    }
                },
                Phase::Moving => {
                    if let EventView::Moved { cwd } = replies[0] {
                        lemma_after_builtin_tracks(
                            step.run,
                            SessionView { cwd, ..step.session },
                        );
                    } else if !(replies[0] is Failed) {
                        lemma_after_builtin_tracks(step.run, step.session);
                    }
                },
                Phase::Clearing => {
                    lemma_after_builtin_tracks(step.run, step.session);
                },
                Phase::Reporting(failure) => {
                    match failure {
                        Failure::Sink => {},
                        Failure::Start => {
                            lemma_enter_tracks(next_stage(step.run), step.session);
                        },
                        Failure::Directory => {
                            lemma_after_builtin_tracks(step.run, step.session);
                        },
                    }
                },
                Phase::Discarding => {
                    lemma_enter_tracks(next_stage(step.run), step.session);
                },
                _ => {},
            }
        }
        lemma_handles_fit(next, then, rest);
        assert(actions[0] == step.action);
        assert(handles_fit(then, actions.drop_first(), rest));
    }
}

proof fn lemma_after_builtin_tracks(run: RunView, session: SessionView)
    requires
        run.sink is Some ==> run.pending is None,
    ensures
        tracks(after_builtin(run, session), run.pending),
{
    if run.pending is None {
        lemma_enter_tracks(next_stage(run), session);
    }
}

/// A process handle is held by one at a time and used up once. Whatever
/// the stages are and however the driver answers: every process reads from
/// the handle of the process started last, if that handle is still held,
/// and else from the terminal; a handle is used up by the next start, by
/// being let go or by being waited for, and is never named again; and when
/// the line ends, no handle is held.
pub proof fn handles_are_used_once(
    stages: Seq<StageView>,
    session: SessionView,
    replies: Seq<EventView>,
)
    ensures
        handles_fit(None, line_actions(stages, session, replies), replies),
{
    lemma_enter_tracks(initial(stages), session);
    lemma_handles_fit(begin_step(stages, session), None, replies);
}

/// Whether none of the stages is `cd` or `exit`.
pub open spec fn session_free(stages: Seq<StageView>) -> bool {
    forall|k: int|
        0 <= k < stages.len() ==> {
            let kind = #[trigger] kind_of(stages[k].command);
            kind != CommandKind::ChangeDir && kind != CommandKind::Exit
        }
}

proof fn lemma_session_stays(step: Step, replies: Seq<EventView>)
    requires
        session_free(step.run.stages),
        !(step.run.phase is Moving),
        !(step.run.phase is Leaving),
    ensures
        last_step(step, replies).session == step.session,
    decreases replies.len(),
{
    if !(step.action is Prompt || step.action is Quit || replies.len() == 0) {
        let next = reply_step(step.run, step.session, replies[0]);
        assert(next.run.stages == step.run.stages);
        assert(next.session == step.session && !(next.run.phase is Moving) && !(next.run.phase
            is Leaving)) by {
            let stages = step.run.stages;
            let k = step.run.at + 1;
            if 0 <= k < stages.len() {
                let kind = kind_of(stages[k].command);
                assert(kind != CommandKind::ChangeDir && kind != CommandKind::Exit);
            }
            if 0 <= step.run.at < stages.len() {
                let kind = kind_of(stages[step.run.at].command);
                assert(kind != CommandKind::ChangeDir && kind != CommandKind::Exit);
            }
        }
        lemma_session_stays(next, replies.drop_first());
    }
}

/// The session is touched by `cd` and `exit` alone: a line without them
/// leaves the session as it found it, whatever happens to its processes.
pub proof fn only_cd_and_exit_touch_the_session(
    stages: Seq<StageView>,
    session: SessionView,
    replies: Seq<EventView>,
)
    requires
        session_free(stages),
    ensures
        line_session(stages, session, replies) == session,
{
    let first = begin_step(stages, session);
    if 0 < stages.len() {
        let kind = kind_of(stages[0].command);
        assert(kind != CommandKind::ChangeDir && kind != CommandKind::Exit);
    }
    lemma_session_stays(first, replies);
}

/// How many more actions a run may ask for, at most, after the one that it
/// has just named.
spec fn actions_left(run: RunView) -> int {
    let later = 3 * (run.stages.len() - run.at - 1) + 2;
    match run.phase {
        Phase::Finished => 0,
        Phase::Waiting => 1,
        Phase::Leaving => 2,
        Phase::Reporting(Failure::Sink) => 1,
        Phase::Reporting(Failure::Start) => later,
        Phase::Reporting(Failure::Directory) => later + 1,
        Phase::Discarding => later,
        Phase::Clearing => later + 1,
        Phase::Launching => later + 1,
        Phase::Moving => later + 2,
        Phase::Opening => later + 2,
        Phase::Ready => later + 3,
    }
}

/// What a count of the actions left rests on.
spec fn countable(step: Step) -> bool {
    &&& !(step.run.phase is Finished || step.run.phase is Waiting || step.run.phase is Leaving
        || step.run.phase == Phase::Reporting(Failure::Sink)) ==> 0 <= step.run.at
        < step.run.stages.len()
    &&& !(step.run.phase is Ready)
    &&& step.run.phase is Finished <==> step.action is Prompt || step.action is Quit
    &&& step.run.phase is Waiting || step.run.phase is Discarding ==> step.run.pending is None
}

proof fn lemma_enter_countable(run: RunView, session: SessionView)
    requires
        0 <= run.at <= run.stages.len(),
    ensures
        countable(enter(run, session)),
        actions_left(enter(run, session).run) <= 3 * (run.stages.len() - run.at) + 1,
{
}

proof fn lemma_run_ends(step: Step, replies: Seq<EventView>)
    requires
        countable(step),
        replies.len() >= actions_left(step.run),
    ensures
        last_step(step, replies).run.phase is Finished,
    decreases replies.len(),
{
    if !(step.action is Prompt || step.action is Quit || replies.len() == 0) {
        let next = reply_step(step.run, step.session, replies[0]);
        let moved = match replies[0] {
            EventView::Moved { cwd } => SessionView { cwd, ..step.session },
            _ => step.session,
        };
        if 0 <= step.run.at < step.run.stages.len() {
            lemma_enter_countable(next_stage(step.run), moved);
            lemma_enter_countable(
                next_stage(RunView { pending: Some(step.run.at), ..step.run }),
                moved,
            );
        }
        assert(countable(next));
        assert(actions_left(next.run) < actions_left(step.run));
        lemma_run_ends(next, replies.drop_first());
    }
}

/// Every line comes to an end: whatever the stages are and whatever
/// fails, the engine names at most three actions for a stage, one wait and
/// the action that ends the line. So a driver that answers every action is
/// given control back.
pub proof fn every_line_comes_to_an_end(
    stages: Seq<StageView>,
    session: SessionView,
    replies: Seq<EventView>,
)
    requires
        replies.len() >= 3 * stages.len() + 1,
    ensures
        ({
            let last = last_step(begin_step(stages, session), replies);
            &&& last.run.phase is Finished
            &&& last.action == ending(last.session)
        }),
{
    let first = begin_step(stages, session);
    lemma_enter_countable(initial(stages), session);
    lemma_run_ends(first, replies);
    lemma_finished_step(first, replies);
}

proof fn lemma_finished_step(step: Step, replies: Seq<EventView>)
    requires
        countable(step),
        step.run.phase is Finished ==> step.action == ending(step.session),
    ensures
        last_step(step, replies).run.phase is Finished ==> last_step(step, replies).action
            == ending(last_step(step, replies).session),
    decreases replies.len(),
{
    if !(step.action is Prompt || step.action is Quit || replies.len() == 0) {
        let next = reply_step(step.run, step.session, replies[0]);
        let moved = match replies[0] {
            EventView::Moved { cwd } => SessionView { cwd, ..step.session },
            _ => step.session,
        };
        if 0 <= step.run.at < step.run.stages.len() {
            lemma_enter_countable(next_stage(step.run), moved);
            lemma_enter_countable(
                next_stage(RunView { pending: Some(step.run.at), ..step.run }),
                moved,
            );
        }
        assert(countable(next));
        lemma_finished_step(next, replies.drop_first());
    }
}

} // verus!
