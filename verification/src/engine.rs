//! The engine that runs one pipeline: a state machine that names the next
//! action to perform and takes in what came of it.
//!
//! The driver performs each action (opens the file, starts the process,
//! changes the directory, waits) and answers with an event. The engine never
//! touches a process itself: it decides the order of the actions and the
//! streams of each process, and keeps track of the one process handle that
//! is held at any time.

use crate::stage::{
    classify, copy_texts, kind_of, same_text, CommandKind, Pipeline, Stage, StageView,
};
use vstd::prelude::*;
use vstd::string::*;

verus! {

/// What can go wrong while a line runs.
#[derive(Debug, Clone, Copy, PartialEq, Eq, Structural)]
pub enum Failure {
    /// The file of a redirection could not be opened.
    Sink,
    /// A process could not be started.
    Start,
    /// The working directory could not be changed.
    Directory,
}

/// Where a process reads from.
#[derive(Debug, Clone, Copy, PartialEq, Eq, Structural)]
pub enum Input {
    /// The terminal, inherited from the shell.
    Terminal,
    /// The output of the process that was started for stage `from`.
    Pipe { from: usize },
}

/// An input binding as plain values.
pub enum InputView {
    Terminal,
    Pipe { from: int },
}

impl View for Input {
    type V = InputView;

    open spec fn view(&self) -> InputView {
        match self {
            Input::Terminal => InputView::Terminal,
            Input::Pipe { from } => InputView::Pipe { from: *from as int },
        }
    }
}

/// Where a process writes to.
#[derive(Debug, PartialEq, Eq)]
pub enum Output {
    /// The terminal, inherited from the shell.
    Terminal,
    /// A new pipe, whose reading end stays with the process handle.
    Pipe,
    /// The file of that name, which an earlier action has opened.
    File(String),
}

/// An output binding as plain text.
pub enum OutputView {
    Terminal,
    Pipe,
    File(Seq<char>),
}

impl View for Output {
    type V = OutputView;

    open spec fn view(&self) -> OutputView {
        match self {
            Output::Terminal => OutputView::Terminal,
            Output::Pipe => OutputView::Pipe,
            Output::File(path) => OutputView::File(path@),
        }
    }
}

/// What the driver is to do next.
#[derive(Debug, PartialEq, Eq)]
pub enum Action {
    /// Open the file for writing: create it, or empty it if it exists.
    OpenSink { path: String },
    /// Start the program for stage `stage` with these streams. A piped input
    /// uses up the handle that is held.
    Launch { stage: usize, command: String, args: Vec<String>, input: Input, output: Output },
    /// Change the working directory.
    ChangeDir { target: String },
    /// Clear the terminal and move the cursor to its origin.
    ClearScreen,
    /// Print the farewell message.
    Farewell,
    /// Let go of the handle of stage `stage` without waiting for it.
    Discard { stage: usize },
    /// Wait until the process of stage `stage` has ended.
    Wait { stage: usize },
    /// Write the error of the action that just failed to the error stream.
    Report { failure: Failure },
    /// The line is done: show the prompt and read the next line.
    Prompt,
    /// The line is done and the shell is to end.
    Quit,
}

/// An action as plain text.
pub enum ActionView {
    OpenSink { path: Seq<char> },
    Launch {
        stage: int,
        command: Seq<char>,
        args: Seq<Seq<char>>,
        input: InputView,
        output: OutputView,
    },
    ChangeDir { target: Seq<char> },
    ClearScreen,
    Farewell,
    Discard { stage: int },
    Wait { stage: int },
    Report { failure: Failure },
    Prompt,
    Quit,
}

impl View for Action {
    type V = ActionView;

    open spec fn view(&self) -> ActionView {
        match self {
            Action::OpenSink { path } => ActionView::OpenSink { path: path@ },
            Action::Launch { stage, command, args, input, output } => ActionView::Launch {
                stage: *stage as int,
                command: command@,
                args: args.deep_view(),
                input: input@,
                output: output@,
            },
            Action::ChangeDir { target } => ActionView::ChangeDir { target: target@ },
            Action::ClearScreen => ActionView::ClearScreen,
            Action::Farewell => ActionView::Farewell,
            Action::Discard { stage } => ActionView::Discard { stage: *stage as int },
            Action::Wait { stage } => ActionView::Wait { stage: *stage as int },
            Action::Report { failure } => ActionView::Report { failure: *failure },
            Action::Prompt => ActionView::Prompt,
            Action::Quit => ActionView::Quit,
        }
    }
}

/// What came of the last action.
#[derive(Debug, PartialEq, Eq)]
pub enum Event {
    /// It was done.
    Done,
    /// It could not be done.
    Failed,
    /// The working directory was changed, and is now `cwd`.
    Moved { cwd: String },
}

/// An event as plain text.
pub enum EventView {
    Done,
    Failed,
    Moved { cwd: Seq<char> },
}

impl View for Event {
    type V = EventView;

    open spec fn view(&self) -> EventView {
        match self {
            Event::Done => EventView::Done,
            Event::Failed => EventView::Failed,
            Event::Moved { cwd } => EventView::Moved { cwd: cwd@ },
        }
    }
}

/// What lives as long as the shell: the working directory, the directory
/// that `cd -` goes back to, and whether `exit` was called.
#[derive(Debug)]
pub struct Session {
    cwd: String,
    previous: String,
    exit_requested: bool,
}

/// A session as plain text.
pub struct SessionView {
    pub cwd: Seq<char>,
    pub previous: Seq<char>,
    pub exit_requested: bool,
}

impl View for Session {
    type V = SessionView;

    closed spec fn view(&self) -> SessionView {
        SessionView {
            cwd: self.cwd@,
            previous: self.previous@,
            exit_requested: self.exit_requested,
        }
    }
}

impl Session {
    /// A session that begins in the directory `cwd`. Until the first `cd`,
    /// `cd -` leads to that same directory.
    pub fn new(cwd: String) -> (s: Session)
        ensures
            s@ == (SessionView { cwd: cwd@, previous: cwd@, exit_requested: false }),
    {
        let previous = cwd.clone();
        Session { cwd, previous, exit_requested: false }
    }

    /// The working directory.
    pub fn cwd(&self) -> (r: &String)
        ensures
            r@ == self@.cwd,
    {
        &self.cwd
    }

    /// The working directory at the start of the last `cd`.
    pub fn previous(&self) -> (r: &String)
        ensures
            r@ == self@.previous,
    {
        &self.previous
    }

    /// Whether `exit` was called.
    pub fn exit_requested(&self) -> (r: bool)
        ensures
            r == self@.exit_requested,
    {
        self.exit_requested
    }
}

/// Where the engine stands within a line.
#[derive(Debug, Clone, Copy, PartialEq, Eq, Structural)]
pub enum Phase {
    /// Between two stages.
    Ready,
    /// The file of the redirection is being opened.
    Opening,
    /// The process of the current stage is being started.
    Launching,
    /// The working directory is being changed.
    Moving,
    /// The terminal is being cleared.
    Clearing,
    /// The farewell message is being printed.
    Leaving,
    /// A failure is being reported.
    Reporting(Failure),
    /// The held handle is being let go.
    Discarding,
    /// The last handle is being waited for.
    Waiting,
    /// The line is done.
    Finished,
}

/// The state of a run as plain values.
pub struct RunView {
    /// The stages of the line.
    pub stages: Seq<StageView>,
    /// The index of the current stage.
    pub at: int,
    /// The stage whose process handle is held, if one is.
    pub pending: Option<int>,
    /// The file that is to be opened before the first process is started.
    pub sink: Option<Seq<char>>,
    /// What the engine waits for.
    pub phase: Phase,
}

/// One step of the engine: the state after it, and the action it asks for.
pub struct Step {
    pub run: RunView,
    pub session: SessionView,
    pub action: ActionView,
}

/// Whether one of the stages is `exit`, so that the stages behind it never run.
pub open spec fn has_exit(stages: Seq<StageView>) -> bool {
    exists|k: int| 0 <= k < stages.len() && #[trigger] kind_of(stages[k].command) == CommandKind::Exit
}

/// The file that the line's output goes to: that of the last stage, if the
/// line runs that far.
pub open spec fn sink_of(stages: Seq<StageView>) -> Option<Seq<char>> {
    if stages.len() > 0 && !has_exit(stages) {
        stages.last().file
    } else {
        None
    }
}

/// The state in which a line begins.
pub open spec fn initial(stages: Seq<StageView>) -> RunView {
    RunView { stages, at: 0, pending: None, sink: sink_of(stages), phase: Phase::Ready }
}

/// The output of stage `k`: its file if it has one, else a pipe if another
/// stage follows, else the terminal.
pub open spec fn output_of(stages: Seq<StageView>, k: int) -> OutputView {
    match stages[k].file {
        Some(path) => OutputView::File(path),
        None => if k + 1 < stages.len() {
            OutputView::Pipe
        } else {
            OutputView::Terminal
        },
    }
}

/// The input of the next process: the output of the held handle, or the
/// terminal if none is held.
pub open spec fn input_of(pending: Option<int>) -> InputView {
    match pending {
        Some(p) => InputView::Pipe { from: p },
        None => InputView::Terminal,
    }
}

/// The directory that `cd` with these arguments leads to: the root without
/// an argument, the directory before the last `cd` for `-`, else the first
/// argument as it stands.
pub open spec fn cd_target(args: Seq<Seq<char>>, previous: Seq<char>) -> Seq<char> {
    if args.len() == 0 {
        "/"@
    } else if args[0] == "-"@ {
        previous
    } else {
        args[0]
    }
}

/// The line ends: control goes back to the prompt, or the shell ends.
pub open spec fn end(run: RunView, session: SessionView) -> Step {
    Step {
        run: RunView { phase: Phase::Finished, ..run },
        session,
        action: if session.exit_requested {
            ActionView::Quit
        } else {
            ActionView::Prompt
        },
    }
}

/// No stage is left to run: the held handle is waited for, if there is one.
pub open spec fn finish(run: RunView, session: SessionView) -> Step {
    match run.pending {
        Some(p) => Step {
            run: RunView { pending: None, phase: Phase::Waiting, ..run },
            session,
            action: ActionView::Wait { stage: p },
        },
        None => end(run, session),
    }
}

/// The process of the current stage is started. Its input uses up the held
/// handle.
pub open spec fn launch(run: RunView, session: SessionView) -> Step {
    Step {
        run: RunView { pending: None, phase: Phase::Launching, ..run },
        session,
        action: ActionView::Launch {
            stage: run.at,
            command: run.stages[run.at].command,
            args: run.stages[run.at].args,
            input: input_of(run.pending),
            output: output_of(run.stages, run.at),
        },
    }
}

/// The current stage begins.
pub open spec fn enter(run: RunView, session: SessionView) -> Step {
    if run.at < 0 || run.at >= run.stages.len() {
        finish(run, session)
    } else {
        match kind_of(run.stages[run.at].command) {
            CommandKind::Exit => Step {
                run: RunView { phase: Phase::Leaving, ..run },
                session: SessionView { exit_requested: true, ..session },
                action: ActionView::Farewell,
            },
            CommandKind::Clear => Step {
                run: RunView { phase: Phase::Clearing, ..run },
                session,
                action: ActionView::ClearScreen,
            },
            CommandKind::ChangeDir => Step {
                run: RunView { phase: Phase::Moving, ..run },
                session: SessionView { previous: session.cwd, ..session },
                action: ActionView::ChangeDir {
                    target: cd_target(run.stages[run.at].args, session.previous),
                },
            },
            CommandKind::External => match run.sink {
                Some(path) => Step {
                    run: RunView { phase: Phase::Opening, ..run },
                    session,
                    action: ActionView::OpenSink { path },
                },
                None => launch(run, session),
            },
        }
    }
}

/// The state in which the stage after the current one begins.
pub open spec fn next_stage(run: RunView) -> RunView {
    RunView { at: run.at + 1, phase: Phase::Ready, ..run }
}

/// A built-in command has had its effect: the held handle is let go, and the
/// next stage begins.
pub open spec fn after_builtin(run: RunView, session: SessionView) -> Step {
    match run.pending {
        Some(p) => Step {
            run: RunView { pending: None, phase: Phase::Discarding, ..run },
            session,
            action: ActionView::Discard { stage: p },
        },
        None => enter(next_stage(run), session),
    }
}

/// A failure is to be reported.
pub open spec fn report(run: RunView, session: SessionView, failure: Failure) -> Step {
    Step {
        run: RunView { phase: Phase::Reporting(failure), ..run },
        session,
        action: ActionView::Report { failure },
    }
}

/// The first step of a line.
pub open spec fn begin_step(stages: Seq<StageView>, session: SessionView) -> Step {
    enter(initial(stages), session)
}

/// The step that follows an event. Only three answers are told from `Done`:
/// `Failed` to the opening of the file, to the start of a process and to the
/// change of directory, and `Moved` to the change of directory.
pub open spec fn reply_step(run: RunView, session: SessionView, event: EventView) -> Step {
    match run.phase {
        Phase::Ready => enter(run, session),
        Phase::Opening => if event is Failed {
            report(run, session, Failure::Sink)
        } else {
            launch(RunView { sink: None, ..run }, session)
        },
        Phase::Launching => if event is Failed {
            report(run, session, Failure::Start)
        } else {
            enter(next_stage(RunView { pending: Some(run.at), ..run }), session)
        },
        Phase::Moving => match event {
            EventView::Failed => report(run, session, Failure::Directory),
            EventView::Moved { cwd } => after_builtin(run, SessionView { cwd, ..session }),
            EventView::Done => after_builtin(run, session),
        },
        Phase::Clearing => after_builtin(run, session),
        Phase::Leaving => finish(run, session),
        Phase::Reporting(failure) => match failure {
            Failure::Sink => end(run, session),
            Failure::Start => enter(next_stage(run), session),
            Failure::Directory => after_builtin(run, session),
        },
        Phase::Discarding => enter(next_stage(run), session),
        Phase::Waiting => end(run, session),
        Phase::Finished => end(run, session),
    }
}

/// The state of the engine while one line runs.
#[derive(Debug)]
pub struct Run {
    stages: Vec<Stage>,
    at: usize,
    pending: Option<usize>,
    sink: Option<String>,
    phase: Phase,
}

impl View for Run {
    type V = RunView;

    closed spec fn view(&self) -> RunView {
        RunView {
            stages: self.stages.deep_view(),
            at: self.at as int,
            pending: match self.pending {
                Some(p) => Some(p as int),
                None => None,
            },
            sink: match self.sink {
                Some(path) => Some(path@),
                None => None,
            },
            phase: self.phase,
        }
    }
}

/// A step of the engine as plain values.
pub open spec fn step_view(r: (Run, Session, Action)) -> Step {
    Step { run: r.0@, session: r.1@, action: r.2@ }
}

/// Whether the engine stands in the middle of a stage.
spec fn mid_stage(phase: Phase) -> bool {
    !(phase is Ready || phase is Waiting || phase is Finished)
}

/// Whether one of the stages is `exit`.
fn any_exit(stages: &Vec<Stage>) -> (r: bool)
    ensures
        r == has_exit(stages.deep_view()),
{
    let mut k: usize = 0;
    while k < stages.len()
        invariant
            k <= stages.len(),
            forall|j: int|
                0 <= j < k ==> #[trigger] kind_of(stages.deep_view()[j].command)
                    != CommandKind::Exit,
        decreases stages.len() - k,
    {
        assert(stages.deep_view()[k as int] == stages[k as int]@);
        match classify(stages[k].command.as_str()) {
            CommandKind::Exit => {
                assert(kind_of(stages.deep_view()[k as int].command) == CommandKind::Exit);
                return true;
            },
            _ => {},
        }
        k += 1;
    }
    false
}

/// The directory that `cd` with these arguments leads to.
fn choose_target(args: &Vec<String>, previous: &String) -> (r: String)
    ensures
        r@ == cd_target(args.deep_view(), previous@),
{
    if args.len() == 0 {
        String::from_str("/")
    } else if same_text(args[0].as_str(), "-") {
        previous.clone()
    } else {
        args[0].clone()
    }
}

impl Run {
    /// In the middle of a stage, that stage exists.
    #[verifier::type_invariant]
    spec fn inv(self) -> bool {
        mid_stage(self.phase) ==> self.at < self.stages.len()
    }

    /// Begins to run a pipeline and names the first action.
    pub fn begin(pipeline: Pipeline, session: Session) -> (r: (Run, Session, Action))
        ensures
            step_view(r) == begin_step(pipeline@, session@),
    {
        let stages = pipeline.into_stages();
        let n: usize = stages.len();
        let sink = if n > 0 && !any_exit(&stages) {
            match &stages[n - 1].file {
                Some(path) => Some(path.clone()),
                None => None,
            }
        } else {
            None
        };
        let run = Run { stages, at: 0, pending: None, sink, phase: Phase::Ready };
        run.enter(session)
    }

    /// Takes in what came of the last action and names the next one.
    pub fn reply(self, session: Session, event: Event) -> (r: (Run, Session, Action))
        ensures
            step_view(r) == reply_step(self@, session@, event@),
    {
        proof {
            use_type_invariant(&self);
        }
        match self.phase {
            Phase::Ready => self.enter(session),
            Phase::Opening => match event {
                Event::Failed => self.report(session, Failure::Sink),
                _ => {
                    let run = Run { sink: None, ..self };
                    run.launch(session)
                },
            },
            Phase::Launching => match event {
                Event::Failed => self.report(session, Failure::Start),
                _ => {
                    let at: usize = self.at;
                    let run = Run { pending: Some(at), at: at + 1, phase: Phase::Ready, ..self };
                    run.enter(session)
                },
            },
            Phase::Moving => match event {
                Event::Failed => self.report(session, Failure::Directory),
                Event::Moved { cwd } => self.after_builtin(Session { cwd, ..session }),
                Event::Done => self.after_builtin(session),
            },
            Phase::Clearing => self.after_builtin(session),
            Phase::Leaving => self.finish(session),
            Phase::Reporting(failure) => match failure {
                Failure::Sink => self.end(session),
                Failure::Start => self.advance(session),
                Failure::Directory => self.after_builtin(session),
            },
            Phase::Discarding => self.advance(session),
            Phase::Waiting => self.end(session),
            Phase::Finished => self.end(session),
        }
    }

    /// Whether the line is done.
    pub fn is_finished(&self) -> (r: bool)
        ensures
            r == (self@.phase is Finished),
    {
        match self.phase {
            Phase::Finished => true,
            _ => false,
        }
    }

    fn end(self, session: Session) -> (r: (Run, Session, Action))
        ensures
            step_view(r) == end(self@, session@),
    {
        let action = if session.exit_requested {
            Action::Quit
        } else {
            Action::Prompt
        };
        (Run { phase: Phase::Finished, ..self }, session, action)
    }

    fn finish(self, session: Session) -> (r: (Run, Session, Action))
        ensures
            step_view(r) == finish(self@, session@),
    {
        match self.pending {
            Some(p) => (
                Run { pending: None, phase: Phase::Waiting, ..self },
                session,
                Action::Wait { stage: p },
            ),
            None => self.end(session),
        }
    }

    fn launch(self, session: Session) -> (r: (Run, Session, Action))
        requires
            self.at < self.stages.len(),
        ensures
            step_view(r) == launch(self@, session@),
    {
        let stage = &self.stages[self.at];
        let command = stage.command.clone();
        let args = copy_texts(&stage.args, stage.args.len());
        assert(stage.args.deep_view().take(stage.args.len() as int) =~= stage.args.deep_view());
        let output = match &stage.file {
            Some(path) => Output::File(path.clone()),
            None => if self.stages.len() - self.at > 1 {
                Output::Pipe
            } else {
                Output::Terminal
            },
        };
        let input = match self.pending {
            Some(p) => Input::Pipe { from: p },
            None => Input::Terminal,
        };
        let at: usize = self.at;
        assert(self.stages.deep_view()[at as int] == self.stages[at as int]@);
        (
            Run { pending: None, phase: Phase::Launching, ..self },
            session,
            Action::Launch { stage: at, command, args, input, output },
        )
    }

    fn enter(self, session: Session) -> (r: (Run, Session, Action))
        ensures
            step_view(r) == enter(self@, session@),
    {
        if self.at >= self.stages.len() {
            return self.finish(session);
        }
        assert(self.stages.deep_view()[self.at as int] == self.stages[self.at as int]@);
        match classify(self.stages[self.at].command.as_str()) {
            CommandKind::Exit => (
                Run { phase: Phase::Leaving, ..self },
                Session { exit_requested: true, ..session },
                Action::Farewell,
            ),
            CommandKind::Clear => (
                Run { phase: Phase::Clearing, ..self },
                session,
                Action::ClearScreen,
            ),
            CommandKind::ChangeDir => {
                let target = choose_target(&self.stages[self.at].args, &session.previous);
                let previous = session.cwd.clone();
                (
                    Run { phase: Phase::Moving, ..self },
                    Session { previous, ..session },
                    Action::ChangeDir { target },
                )
            },
            CommandKind::External => match &self.sink {
                Some(path) => {
                    let path = path.clone();
                    (Run { phase: Phase::Opening, ..self }, session, Action::OpenSink { path })
                },
                None => self.launch(session),
            },
        }
    }

    fn advance(self, session: Session) -> (r: (Run, Session, Action))
        requires
            self.at < self.stages.len(),
        ensures
            step_view(r) == enter(next_stage(self@), session@),
    {
        let at: usize = self.at;
        let run = Run { at: at + 1, phase: Phase::Ready, ..self };
        run.enter(session)
    }

    fn after_builtin(self, session: Session) -> (r: (Run, Session, Action))
        requires
            self.at < self.stages.len(),
        ensures
            step_view(r) == after_builtin(self@, session@),
    {
        match self.pending {
            Some(p) => (
                Run { pending: None, phase: Phase::Discarding, ..self },
                session,
                Action::Discard { stage: p },
            ),
            None => self.advance(session),
        }
    }

    fn report(self, session: Session, failure: Failure) -> (r: (Run, Session, Action))
        requires
            self.at < self.stages.len(),
        ensures
            step_view(r) == report(self@, session@, failure),
    {
        (Run { phase: Phase::Reporting(failure), ..self }, session, Action::Report { failure })
    }
}

} // verus!
