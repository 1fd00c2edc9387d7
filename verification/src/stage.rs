//! Stages: the tokenizer that makes them, the built-in commands among them
//! and the resolver of output redirections.

use crate::text::{
    is_word, lemma_pushed, lemma_segments_exist, segments, split_stages, split_tokens, tokens,
    tokens_are_words, trim, trimmed,
};
use vstd::prelude::*;
use vstd::string::*;

verus! {

/// What a command name stands for: one of the three built-in commands, or an
/// external program.
#[derive(Debug, Clone, Copy, PartialEq, Eq, Structural)]
pub enum CommandKind {
    Exit,
    Clear,
    ChangeDir,
    External,
}

/// One command of a pipeline: its name, its arguments, and the file that its
/// output is redirected to, if any.
#[derive(Debug, PartialEq, Eq)]
pub struct Stage {
    pub command: String,
    pub args: Vec<String>,
    pub file: Option<String>,
}

/// A stage as plain text.
pub struct StageView {
    pub command: Seq<char>,
    pub args: Seq<Seq<char>>,
    pub file: Option<Seq<char>>,
}

impl View for Stage {
    type V = StageView;

    open spec fn view(&self) -> StageView {
        StageView {
            command: self.command@,
            args: self.args.deep_view(),
            file: match self.file {
                Some(path) => Some(path@),
                None => None,
            },
        }
    }
}

impl DeepView for Stage {
    type V = StageView;

    open spec fn deep_view(&self) -> StageView {
        self@
    }
}

/// Why a line is not a pipeline. `index` counts the stages from zero.
#[derive(Debug, Clone, Copy, PartialEq, Eq, Structural)]
pub enum ParseError {
    /// The stage holds no token at all.
    EmptyStage { index: usize },
    /// The redirect marker is the last token of the stage: no file is named.
    MissingTarget { index: usize },
    /// The stage redirects its output although another stage follows it.
    MisplacedRedirect { index: usize },
}

/// What is wrong with the line, in words.
pub open spec fn message_of(e: ParseError) -> Seq<char> {
    match e {
        ParseError::EmptyStage { .. } => "syntax error: a command is missing"@,
        ParseError::MissingTarget { .. } => "syntax error: no file name follows `>`"@,
        ParseError::MisplacedRedirect { .. } =>
            "syntax error: only the last command may redirect its output"@,
    }
}

impl ParseError {
    /// The position of the stage that is at fault, counted from zero.
    pub fn index(&self) -> (k: usize)
        ensures
            k == match *self {
                ParseError::EmptyStage { index } => index,
                ParseError::MissingTarget { index } => index,
                ParseError::MisplacedRedirect { index } => index,
            },
    {
        match self {
            ParseError::EmptyStage { index } => *index,
            ParseError::MissingTarget { index } => *index,
            ParseError::MisplacedRedirect { index } => *index,
        }
    }

    /// What is wrong with the line, in words.
    pub fn message(&self) -> (text: String)
        ensures
            text@ == message_of(*self),
    {
        match self {
            ParseError::EmptyStage { .. } => String::from_str("syntax error: a command is missing"),
            ParseError::MissingTarget { .. } => String::from_str(
                "syntax error: no file name follows `>`",
            ),
            ParseError::MisplacedRedirect { .. } => String::from_str(
                "syntax error: only the last command may redirect its output",
            ),
        }
    }
}

/// The token that redirects a stage's output.
pub open spec fn marker() -> Seq<char> {
    ">"@
}

/// The kind of the command that is called `command`, by exact match.
pub open spec fn kind_of(command: Seq<char>) -> CommandKind {
    if command == "exit"@ {
        CommandKind::Exit
    } else if command == "clear"@ {
        CommandKind::Clear
    } else if command == "cd"@ {
        CommandKind::ChangeDir
    } else {
        CommandKind::External
    }
}

/// The stage that a list of at least one token stands for before its
/// redirection is resolved: the first token is the command, the others are
/// its arguments.
pub open spec fn raw_stage(tokens: Seq<Seq<char>>) -> StageView {
    StageView { command: tokens[0], args: tokens.subrange(1, tokens.len() as int), file: None }
}

/// The raw stages of the first `upto` segments, or the first segment among
/// them that holds no token.
pub open spec fn tokenized(segs: Seq<Seq<char>>, upto: int) -> Result<Seq<StageView>, ParseError>
    decreases upto,
{
    if upto <= 0 {
        Ok(Seq::empty())
    } else {
        match tokenized(segs, upto - 1) {
            Err(e) => Err(e),
            Ok(front) => {
                let words = tokens(segs[upto - 1]);
                if words.len() == 0 {
                    Err(ParseError::EmptyStage { index: (upto - 1) as usize })
                } else {
                    Ok(front.push(raw_stage(words)))
                }
            },
        }
    }
}

/// What the tokenizer makes of a line: the line is trimmed, cut at the stage
/// delimiters, and each segment is cut into tokens.
pub open spec fn tokenize_result(line: Seq<char>) -> Result<Seq<StageView>, ParseError> {
    let segs = segments(trimmed(line));
    tokenized(segs, segs.len() as int)
}

/// The stage with its redirection resolved. The first marker among the
/// arguments ends them, and the token behind it names the file. Without a
/// marker the stage stays as it is; with a marker and nothing behind it there
/// is no such stage.
pub open spec fn redirect_of(stage: StageView) -> Option<StageView> {
    match stage.args.index_of_first(marker()) {
        None => Some(stage),
        Some(i) => if i + 1 < stage.args.len() {
            Some(
                StageView {
                    command: stage.command,
                    args: stage.args.take(i),
                    file: Some(stage.args[i + 1]),
                },
            )
        } else {
            None
        },
    }
}

/// The first `upto` raw stages with the redirection of each external one
/// resolved, or the first among them that is malformed. Built-in stages keep
/// their arguments as they are.
pub open spec fn resolved(raw: Seq<StageView>, upto: int) -> Result<Seq<StageView>, ParseError>
    decreases upto,
{
    if upto <= 0 {
        Ok(Seq::empty())
    } else {
        match resolved(raw, upto - 1) {
            Err(e) => Err(e),
            Ok(front) => {
                let k = upto - 1;
                if kind_of(raw[k].command) != CommandKind::External {
                    Ok(front.push(raw[k]))
                } else {
                    match redirect_of(raw[k]) {
                        None => Err(ParseError::MissingTarget { index: k as usize }),
                        Some(stage) => if stage.file is Some && k + 1 < raw.len() {
                            Err(ParseError::MisplacedRedirect { index: k as usize })
                        } else {
                            Ok(front.push(stage))
                        },
                    }
                }
            },
        }
    }
}

/// The pipeline that a line stands for, or the reason why it stands for none.
/// An empty stage anywhere in the line comes before any error of redirection.
pub open spec fn parse_result(line: Seq<char>) -> Result<Seq<StageView>, ParseError> {
    match tokenize_result(line) {
        Err(e) => Err(e),
        Ok(raw) => resolved(raw, raw.len() as int),
    }
}

/// The result of a parsing function as plain text.
pub open spec fn stages_view(r: Result<Vec<Stage>, ParseError>) -> Result<
    Seq<StageView>,
    ParseError,
> {
    match r {
        Ok(stages) => Ok(stages.deep_view()),
        Err(e) => Err(e),
    }
}

/// Whether two pieces of text are the same.
pub(crate) fn same_text(a: &str, b: &str) -> (r: bool)
    ensures
        r == (a@ == b@),
{
    String::from_str(a) == String::from_str(b)
}

/// Tells a built-in command from an external one by its name.
pub fn classify(command: &str) -> (kind: CommandKind)
    ensures
        kind == kind_of(command@),
{
    if same_text(command, "exit") {
        CommandKind::Exit
    } else if same_text(command, "clear") {
        CommandKind::Clear
    } else if same_text(command, "cd") {
        CommandKind::ChangeDir
    } else {
        CommandKind::External
    }
}

/// A copy of the first `upto` strings of `list`.
pub(crate) fn copy_texts(list: &Vec<String>, upto: usize) -> (r: Vec<String>)
    requires
        upto <= list.len(),
    ensures
        r.deep_view() == list.deep_view().take(upto as int),
{
    let mut out: Vec<String> = Vec::new();
    let mut i: usize = 0;
    while i < upto
        invariant
            i <= upto <= list.len(),
            out.deep_view() == list.deep_view().take(i as int),
        decreases upto - i,
    {
        let item = list[i].clone();
        let ghost before = out;
        out.push(item);
        proof {
            lemma_pushed(before, out, item);
        }
        i += 1;
        assert(out.deep_view() =~= list.deep_view().take(i as int));
    }
    out
}

/// The position of the first redirect marker among `args`.
fn find_marker(args: &Vec<String>) -> (r: Option<usize>)
    ensures
        match r {
            Some(i) => args.deep_view().index_of_first(marker()) == Some(i as int),
            None => args.deep_view().index_of_first(marker()) is None,
        },
{
    let ghost texts = args.deep_view();
    let mut i: usize = 0;
    while i < args.len()
        invariant
            i <= args.len(),
            texts == args.deep_view(),
            forall|j: int| 0 <= j < i ==> texts[j] != marker(),
        decreases args.len() - i,
    {
        if same_text(args[i].as_str(), ">") {
            proof {
                assert(texts[i as int] == marker());
                assert(texts.contains(marker()));
                texts.index_of_first_ensures(marker());
            }
            return Some(i);
        }
        i += 1;
    }
    proof {
        texts.index_of_first_ensures(marker());
    }
    None
}

/// Resolves the output redirection of a stage: `None` where the marker is
/// the stage's last token, so that no file is named.
pub fn resolve_redirect(stage: &Stage) -> (r: Option<Stage>)
    ensures
        match r {
            Some(done) => redirect_of(stage@) == Some(done@),
            None => redirect_of(stage@) is None,
        },
{
    match find_marker(&stage.args) {
        None => {
            let file = match &stage.file {
                Some(path) => Some(path.clone()),
                None => None,
            };
            let args = copy_texts(&stage.args, stage.args.len());
            assert(stage.args.deep_view().take(stage.args.len() as int) =~= stage.args.deep_view());
            Some(Stage { command: stage.command.clone(), args, file })
        },
        Some(i) => {
            proof {
                stage.args.deep_view().index_of_first_ensures(marker());
            }
            if stage.args.len() - i > 1 {
                let args = copy_texts(&stage.args, i);
                let path = stage.args[i + 1].clone();
                Some(Stage { command: stage.command.clone(), args, file: Some(path) })
            } else {
                None
            }
        },
    }
}

/// The tokenizer: cuts a line into its stages and each stage into a command
/// and its arguments. A stage without any token is refused.
pub fn tokenize(line: &str) -> (r: Result<Vec<Stage>, ParseError>)
    ensures
        stages_view(r) == tokenize_result(line@),
{
    let pieces = split_stages(trim(line));
    let ghost segs = segments(trimmed(line@));
    let mut out: Vec<Stage> = Vec::new();
    let mut k: usize = 0;
    assert(out.deep_view() =~= Seq::empty());
    while k < pieces.len()
        invariant
            k <= pieces.len(),
            pieces.deep_view() == segs,
            segs == segments(trimmed(line@)),
            tokenized(segs, k as int) == Ok::<Seq<StageView>, ParseError>(out.deep_view()),
        decreases pieces.len() - k,
    {
        let mut words = split_tokens(pieces[k].as_str());
        assert(words.deep_view() == tokens(segs[k as int]));
        if words.len() == 0 {
            proof {
                assert(tokenized(segs, k as int + 1) is Err);
                lemma_tokenized_error(segs, k as int + 1, segs.len() as int);
            }
            return Err(ParseError::EmptyStage { index: k });
        }
        let ghost all = words.deep_view();
        let command = words.remove(0);
        let stage = Stage { command, args: words, file: None };
        assert(stage@.args =~= all.subrange(1, all.len() as int));
        let ghost before = out;
        out.push(stage);
        proof {
            lemma_pushed(before, out, stage);
        }
        k += 1;
    }
    Ok(out)
}

/// A copy of `stage`.
fn copy_stage(stage: &Stage) -> (r: Stage)
    ensures
        r@ == stage@,
{
    let args = copy_texts(&stage.args, stage.args.len());
    assert(stage.args.deep_view().take(stage.args.len() as int) =~= stage.args.deep_view());
    let file = match &stage.file {
        Some(path) => Some(path.clone()),
        None => None,
    };
    Stage { command: stage.command.clone(), args, file }
}

/// The stages of one line, in order, each with its redirection resolved.
#[derive(Debug)]
pub struct Pipeline {
    stages: Vec<Stage>,
}

impl View for Pipeline {
    type V = Seq<StageView>;

    closed spec fn view(&self) -> Seq<StageView> {
        self.stages.deep_view()
    }
}

/// The result of parsing as plain text.
pub open spec fn pipeline_view(r: Result<Pipeline, ParseError>) -> Result<
    Seq<StageView>,
    ParseError,
> {
    match r {
        Ok(pipeline) => Ok(pipeline@),
        Err(e) => Err(e),
    }
}

impl Pipeline {
    /// The stages, first to last.
    pub fn stages(&self) -> (r: &Vec<Stage>)
        ensures
            r.deep_view() == self@,
    {
        &self.stages
    }

    /// The number of stages.
    pub fn len(&self) -> (n: usize)
        ensures
            n == self@.len(),
    {
        self.stages.len()
    }

    /// Gives the stages up, first to last.
    pub fn into_stages(self) -> (r: Vec<Stage>)
        ensures
            r.deep_view() == self@,
    {
        self.stages
    }
}

/// Parses one line of input into a pipeline: the tokenizer first, then the
/// redirection of every external stage. Only the last stage may redirect.
pub fn parse_line(line: &str) -> (r: Result<Pipeline, ParseError>)
    ensures
        pipeline_view(r) == parse_result(line@),
{
    let raw = match tokenize(line) {
        Ok(raw) => raw,
        Err(e) => {
            return Err(e);
        },
    };
    let ghost plain = raw.deep_view();
    let mut out: Vec<Stage> = Vec::new();
    let mut k: usize = 0;
    assert(out.deep_view() =~= Seq::empty());
    while k < raw.len()
        invariant
            k <= raw.len(),
            plain == raw.deep_view(),
            tokenize_result(line@) == Ok::<Seq<StageView>, ParseError>(plain),
            resolved(plain, k as int) == Ok::<Seq<StageView>, ParseError>(out.deep_view()),
        decreases raw.len() - k,
    {
        assert(plain[k as int] == raw[k as int]@);
        let stage = match classify(raw[k].command.as_str()) {
            CommandKind::External => {
                match resolve_redirect(&raw[k]) {
                    None => {
                        proof {
                            assert(resolved(plain, k as int + 1) is Err);
                            lemma_resolved_error(plain, k as int + 1, plain.len() as int);
                        }
                        return Err(ParseError::MissingTarget { index: k });
                    },
                    Some(stage) => {
                        if stage.file.is_some() && raw.len() - k > 1 {
                            proof {
                                assert(resolved(plain, k as int + 1) is Err);
                                lemma_resolved_error(plain, k as int + 1, plain.len() as int);
                            }
                            return Err(ParseError::MisplacedRedirect { index: k });
                        }
                        stage
                    },
                }
            },
            _ => copy_stage(&raw[k]),
        };
        let ghost before = out;
        out.push(stage);
        proof {
            lemma_pushed(before, out, stage);
        }
        k += 1;
    }
    Ok(Pipeline { stages: out })
}

/// Once a segment is refused, the segments behind it change nothing.
proof fn lemma_tokenized_error(segs: Seq<Seq<char>>, at: int, upto: int)
    requires
        0 <= at <= upto,
        tokenized(segs, at) is Err,
    ensures
        tokenized(segs, upto) == tokenized(segs, at),
    decreases upto - at,
{
    if at < upto {
        lemma_tokenized_error(segs, at, upto - 1);
    }
}

/// Once a stage is refused, the stages behind it change nothing.
proof fn lemma_resolved_error(raw: Seq<StageView>, at: int, upto: int)
    requires
        0 <= at <= upto,
        resolved(raw, at) is Err,
    ensures
        resolved(raw, upto) == resolved(raw, at),
    decreases upto - at,
{
    if at < upto {
        lemma_resolved_error(raw, at, upto - 1);
    }
}

/// What the data model asks of a pipeline: it has a stage; every command is
/// a word; and only the last stage may redirect its output, and only if it
/// is an external command.
pub open spec fn well_formed(stages: Seq<StageView>) -> bool {
    &&& stages.len() > 0
    &&& forall|k: int| 0 <= k < stages.len() ==> is_word(#[trigger] stages[k].command)
    &&& forall|k: int|
        0 <= k < stages.len() && (#[trigger] stages[k]).file is Some ==> k == stages.len() - 1
            && kind_of(stages[k].command) == CommandKind::External
}

proof fn lemma_tokenized(segs: Seq<Seq<char>>, upto: int)
    requires
        0 <= upto <= segs.len(),
    ensures
        tokenized(segs, upto) matches Ok(raw) ==> {
            &&& raw.len() == upto
            &&& forall|k: int|
                0 <= k < upto ==> tokens(segs[k]).len() > 0 && #[trigger] raw[k] == raw_stage(
                    tokens(segs[k]),
                )
        },
    decreases upto,
{
    if upto > 0 {
        lemma_tokenized(segs, upto - 1);
    }
}

proof fn lemma_resolved(raw: Seq<StageView>, upto: int)
    requires
        0 <= upto <= raw.len(),
    ensures
        resolved(raw, upto) matches Ok(done) ==> {
            &&& done.len() == upto
            &&& forall|k: int|
                0 <= k < upto ==> {
                    &&& (#[trigger] done[k]).command == raw[k].command
                    &&& kind_of(raw[k].command) != CommandKind::External ==> done[k] == raw[k]
                    &&& kind_of(raw[k].command) == CommandKind::External ==> redirect_of(raw[k])
                        == Some(done[k])
                    &&& done[k].file is Some && raw[k].file is None ==> k == raw.len() - 1
                        && kind_of(raw[k].command) == CommandKind::External
                }
        },
    decreases upto,
{
    if upto > 0 {
        lemma_resolved(raw, upto - 1);
    }
}

/// Every line that parses gives a pipeline that the data model accepts.
pub proof fn parsed_pipeline_is_well_formed(line: Seq<char>)
    ensures
        parse_result(line) matches Ok(stages) ==> well_formed(stages),
{
    let segs = segments(trimmed(line));
    lemma_segments_exist(trimmed(line), 0, 0);
    lemma_tokenized(segs, segs.len() as int);
    if let Ok(raw) = tokenize_result(line) {
        lemma_resolved(raw, raw.len() as int);
        if let Ok(stages) = parse_result(line) {
            assert forall|k: int| 0 <= k < stages.len() implies is_word(
                #[trigger] stages[k].command,
            ) by {
                tokens_are_words(segs[k]);
                assert(raw[k] == raw_stage(tokens(segs[k])));
                assert(stages[k].command == tokens(segs[k])[0]);
                assert(is_word(tokens(segs[k])[0]));
            }
            assert forall|k: int|
                0 <= k < stages.len() && (#[trigger] stages[k]).file is Some implies k
                == stages.len() - 1 && kind_of(stages[k].command) == CommandKind::External by {
                assert(raw[k] == raw_stage(tokens(segs[k])));
            }
        }
    }
}

/// What a line that parses is made of, stage by stage: there are as many
/// stages as the trimmed line has segments; the command of each is the first
/// token of its segment; a built-in stage keeps the other tokens as its
/// arguments; and an external stage is what the resolver makes of them.
pub proof fn parsed_stages_come_from_their_segments(line: Seq<char>)
    ensures
        parse_result(line) matches Ok(stages) ==> {
            let segs = segments(trimmed(line));
            &&& stages.len() == segs.len()
            &&& forall|k: int|
                0 <= k < stages.len() ==> {
                    let raw = raw_stage(tokens(segs[k]));
                    &&& tokens(segs[k]).len() > 0
                    &&& (#[trigger] stages[k]).command == raw.command
                    &&& kind_of(raw.command) != CommandKind::External ==> stages[k] == raw
                    &&& kind_of(raw.command) == CommandKind::External ==> redirect_of(raw) == Some(
                        stages[k],
                    )
                }
        },
{
    let segs = segments(trimmed(line));
    lemma_tokenized(segs, segs.len() as int);
    if let Ok(raw) = tokenize_result(line) {
        lemma_resolved(raw, raw.len() as int);
        if let Ok(stages) = parse_result(line) {
            assert forall|k: int| 0 <= k < stages.len() implies {
                let first = raw_stage(tokens(segs[k]));
                &&& tokens(segs[k]).len() > 0
                &&& (#[trigger] stages[k]).command == first.command
                &&& kind_of(first.command) != CommandKind::External ==> stages[k] == first
                &&& kind_of(first.command) == CommandKind::External ==> redirect_of(first) == Some(
                    stages[k],
                )
            } by {
                assert(raw[k] == raw_stage(tokens(segs[k])));
            }
        }
    }
}

/// What the resolver makes of a stage that redirects: the marker is the
/// first one among the arguments, the file is the token behind it, and the
/// arguments that stay are those before the marker, so that neither the
/// marker nor the file's name is among them.
pub proof fn redirect_cuts_at_first_marker(stage: StageView, i: int)
    requires
        0 <= i < stage.args.len(),
        stage.args[i] == marker(),
        forall|j: int| 0 <= j < i ==> stage.args[j] != marker(),
    ensures
        i + 1 < stage.args.len() ==> redirect_of(stage) == Some(
            StageView {
                command: stage.command,
                args: stage.args.take(i),
                file: Some(stage.args[i + 1]),
            },
        ),
        i + 1 == stage.args.len() ==> redirect_of(stage) is None,
        !stage.args.take(i).contains(marker()),
{
    stage.args.index_of_first_ensures(marker());
    assert(stage.args.contains(marker()));
}

/// A stage without a marker among its arguments stays as it is.
pub proof fn redirect_keeps_stage_without_marker(stage: StageView)
    requires
        !stage.args.contains(marker()),
    ensures
        redirect_of(stage) == Some(stage),
{
    stage.args.index_of_first_ensures(marker());
}

} // verus!
