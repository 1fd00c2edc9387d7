use minishell::stage::{
    classify, parse_line, resolve_redirect, tokenize, CommandKind, ParseError, Stage,
};
use minishell::text::{is_whitespace, split_stages, split_tokens, trim};

fn words(list: &[&str]) -> Vec<String> {
    list.iter().map(|w| w.to_string()).collect()
}

#[test]
fn whitespace_agrees_with_the_standard_library() {
    let mut n: u32 = 0;
    while n <= 0x10FFFF {
        if let Some(c) = char::from_u32(n) {
            assert_eq!(is_whitespace(c), c.is_whitespace(), "code point {:#x}", n);
        }
        n += 1;
    }
}

#[test]
fn trim_strips_both_ends() {
    assert_eq!(trim("  ls -l \t\n"), "ls -l");
    assert_eq!(trim("ls"), "ls");
    assert_eq!(trim(" \t "), "");
    assert_eq!(trim(""), "");
    assert_eq!(trim("\u{3000}a b\u{a0}"), "a b");
}

#[test]
fn split_stages_cuts_at_spaced_pipes_only() {
    assert_eq!(split_stages("a | b"), words(&["a", "b"]));
    assert_eq!(split_stages("a|b"), words(&["a|b"]));
    assert_eq!(split_stages("a |b"), words(&["a |b"]));
    assert_eq!(split_stages(""), words(&[""]));
    assert_eq!(split_stages("a |  | b"), words(&["a", "", "b"]));
    assert_eq!(split_stages("a | | b"), words(&["a", "| b"]));
    assert_eq!(split_stages(" | "), words(&["", ""]));
    assert_eq!(split_stages("x | y | z"), words(&["x", "y", "z"]));
}

#[test]
fn split_stages_agrees_with_the_standard_library() {
    for line in ["a | b", " | | ", "a |  | b | ", "|| | ||", " |  |  | ", "é | ü"] {
        let expected: Vec<String> = line.split(" | ").map(|s| s.to_string()).collect();
        assert_eq!(split_stages(line), expected, "line {:?}", line);
    }
}

#[test]
fn split_tokens_cuts_at_runs_of_whitespace() {
    assert_eq!(split_tokens("ls -l  /tmp"), words(&["ls", "-l", "/tmp"]));
    assert_eq!(split_tokens("  wc\t-c\n"), words(&["wc", "-c"]));
    assert_eq!(split_tokens(""), words(&[]));
    assert_eq!(split_tokens(" \t "), words(&[]));
    assert_eq!(split_tokens("é\u{2003}ü"), words(&["é", "ü"]));
}

#[test]
fn classify_knows_the_built_in_commands() {
    assert_eq!(classify("exit"), CommandKind::Exit);
    assert_eq!(classify("clear"), CommandKind::Clear);
    assert_eq!(classify("cd"), CommandKind::ChangeDir);
    assert_eq!(classify("ls"), CommandKind::External);
    assert_eq!(classify("Exit"), CommandKind::External);
    assert_eq!(classify("cdx"), CommandKind::External);
    assert_eq!(classify(""), CommandKind::External);
}

#[test]
fn parse_line_refuses_an_empty_stage() {
    assert_eq!(parse_line("").err(), Some(ParseError::EmptyStage { index: 0 }));
    assert_eq!(parse_line("   ").err(), Some(ParseError::EmptyStage { index: 0 }));
    assert_eq!(parse_line("ls |  | wc").err(), Some(ParseError::EmptyStage { index: 1 }));
}

#[test]
fn parse_line_reads_a_single_command() {
    let pipeline = parse_line("  ls -l /tmp \n").unwrap();
    assert_eq!(pipeline.len(), 1);
    let stage = &pipeline.stages()[0];
    assert_eq!(stage.command, "ls");
    assert_eq!(stage.args, words(&["-l", "/tmp"]));
    assert_eq!(stage.file, None);
}

#[test]
fn parse_line_reads_a_pipeline() {
    let pipeline = parse_line("echo hello | wc -c").unwrap();
    assert_eq!(pipeline.len(), 2);
    assert_eq!(pipeline.stages()[0].command, "echo");
    assert_eq!(pipeline.stages()[0].args, words(&["hello"]));
    assert_eq!(pipeline.stages()[1].command, "wc");
    assert_eq!(pipeline.stages()[1].args, words(&["-c"]));
    assert_eq!(pipeline.stages()[1].file, None);
}

#[test]
fn parse_line_resolves_the_redirection() {
    let pipeline = parse_line("ls > out.txt").unwrap();
    assert_eq!(pipeline.len(), 1);
    let stage = &pipeline.stages()[0];
    assert_eq!(stage.command, "ls");
    assert_eq!(stage.args, words(&[]));
    assert_eq!(stage.file, Some("out.txt".to_string()));
}

#[test]
fn redirection_cuts_the_arguments_at_the_first_marker() {
    let pipeline = parse_line("sort -r names > a > b c").unwrap();
    let stage = &pipeline.stages()[0];
    assert_eq!(stage.args, words(&["-r", "names"]));
    assert_eq!(stage.file, Some("a".to_string()));
}

#[test]
fn redirection_is_read_among_the_arguments_only() {
    let pipeline = parse_line("> out.txt").unwrap();
    let stage = &pipeline.stages()[0];
    assert_eq!(stage.command, ">");
    assert_eq!(stage.args, words(&["out.txt"]));
    assert_eq!(stage.file, None);
}

#[test]
fn marker_must_stand_alone_to_redirect() {
    let pipeline = parse_line("echo a>b >> c").unwrap();
    let stage = &pipeline.stages()[0];
    assert_eq!(stage.args, words(&["a>b", ">>", "c"]));
    assert_eq!(stage.file, None);
}

#[test]
fn built_in_commands_keep_their_arguments() {
    let pipeline = parse_line("cd > out.txt | ls").unwrap();
    assert_eq!(pipeline.len(), 2);
    let stage = &pipeline.stages()[0];
    assert_eq!(stage.command, "cd");
    assert_eq!(stage.args, words(&[">", "out.txt"]));
    assert_eq!(stage.file, None);
}

#[test]
fn parse_line_refuses_a_marker_without_a_file() {
    assert_eq!(parse_line("ls >").err(), Some(ParseError::MissingTarget { index: 0 }));
    assert_eq!(parse_line("ls | wc -c >").err(), Some(ParseError::MissingTarget { index: 1 }));
}

#[test]
fn parse_line_refuses_a_redirection_before_the_last_stage() {
    assert_eq!(
        parse_line("ls > out.txt | wc").err(),
        Some(ParseError::MisplacedRedirect { index: 0 })
    );
    assert_eq!(
        parse_line("a | b > f | c > g").err(),
        Some(ParseError::MisplacedRedirect { index: 1 })
    );
}

#[test]
fn an_empty_stage_comes_before_an_error_of_redirection() {
    assert_eq!(parse_line("ls > |  | wc").err(), Some(ParseError::EmptyStage { index: 1 }));
}

#[test]
fn the_first_malformed_stage_is_named() {
    assert_eq!(parse_line("a > | b > f | c").err(), Some(ParseError::MissingTarget { index: 0 }));
    assert_eq!(parse_line("a |  |  | b").err(), Some(ParseError::EmptyStage { index: 1 }));
}

#[test]
fn a_pipe_at_the_end_of_the_line_is_an_argument() {
    let pipeline = parse_line("ls | ").unwrap();
    assert_eq!(pipeline.len(), 1);
    assert_eq!(pipeline.stages()[0].command, "ls");
    assert_eq!(pipeline.stages()[0].args, words(&["|"]));
}

#[test]
fn a_pipe_without_spaces_is_no_delimiter() {
    let pipeline = parse_line("echo a|b").unwrap();
    assert_eq!(pipeline.len(), 1);
    assert_eq!(pipeline.stages()[0].args, words(&["a|b"]));
}

#[test]
fn parse_errors_have_an_index_and_a_message() {
    let empty = ParseError::EmptyStage { index: 2 };
    let missing = ParseError::MissingTarget { index: 0 };
    let misplaced = ParseError::MisplacedRedirect { index: 1 };
    assert_eq!(empty.index(), 2);
    assert_eq!(missing.index(), 0);
    assert_eq!(misplaced.index(), 1);
    assert_eq!(empty.message(), "syntax error: a command is missing");
    assert_eq!(missing.message(), "syntax error: no file name follows `>`");
    assert_eq!(
        misplaced.message(),
        "syntax error: only the last command may redirect its output"
    );
}

#[test]
fn tokenize_leaves_the_redirection_alone() {
    let stages = tokenize("ls -l > out.txt | wc").unwrap();
    assert_eq!(stages.len(), 2);
    assert_eq!(stages[0].command, "ls");
    assert_eq!(stages[0].args, words(&["-l", ">", "out.txt"]));
    assert_eq!(stages[0].file, None);
    assert_eq!(stages[1].command, "wc");
    assert_eq!(tokenize("ls |  | wc").err(), Some(ParseError::EmptyStage { index: 1 }));
    let trimmed = tokenize(" | ls").unwrap();
    assert_eq!(trimmed.len(), 1);
    assert_eq!(trimmed[0].command, "|");
    assert_eq!(trimmed[0].args, words(&["ls"]));
}

#[test]
fn resolve_redirect_names_the_file() {
    let raw = Stage { command: "ls".to_string(), args: words(&["-l", ">", "out.txt"]), file: None };
    let done = resolve_redirect(&raw).unwrap();
    assert_eq!(
        done,
        Stage { command: "ls".to_string(), args: words(&["-l"]), file: Some("out.txt".to_string()) }
    );
    let bare = Stage { command: "ls".to_string(), args: words(&["-l"]), file: None };
    assert_eq!(
        resolve_redirect(&bare),
        Some(Stage { command: "ls".to_string(), args: words(&["-l"]), file: None })
    );
    let open = Stage { command: "ls".to_string(), args: words(&["-l", ">"]), file: None };
    assert_eq!(resolve_redirect(&open), None);
}

const LINES: [&str; 12] = [
    "",
    "ls",
    "  ls -l  ",
    "echo hello | wc -c",
    "a | b | c > out",
    " | | ",
    "a |  | b | ",
    "|| | ||",
    " |  |  | ",
    "cd - | clear | exit",
    "x\t|\ty | z",
    "é | ü > ö",
];

#[test]
fn segments_joined_by_the_delimiter_are_the_text() {
    for line in LINES {
        assert_eq!(split_stages(line).join(" | "), line, "line {:?}", line);
    }
}

#[test]
fn segments_hold_no_delimiter() {
    for line in LINES {
        for piece in split_stages(line) {
            assert!(!piece.contains(" | "), "line {:?}, piece {:?}", line, piece);
        }
    }
}

#[test]
fn tokens_are_words() {
    for line in LINES {
        for token in split_tokens(line) {
            assert!(!token.is_empty(), "line {:?}", line);
            assert!(!token.chars().any(|c| c.is_whitespace()), "line {:?}", line);
        }
        let expected: Vec<String> = line.split_whitespace().map(|t| t.to_string()).collect();
        assert_eq!(split_tokens(line), expected, "line {:?}", line);
    }
}

#[test]
fn trimming_agrees_with_the_standard_library() {
    for line in LINES {
        assert_eq!(trim(line), line.trim(), "line {:?}", line);
    }
}

#[test]
fn a_parsed_pipeline_is_well_formed() {
    for line in LINES {
        if let Ok(pipeline) = parse_line(line) {
            let stages = pipeline.stages();
            assert!(!stages.is_empty(), "line {:?}", line);
            for (k, stage) in stages.iter().enumerate() {
                assert!(!stage.command.is_empty(), "line {:?}", line);
                if stage.file.is_some() {
                    assert_eq!(k, stages.len() - 1, "line {:?}", line);
                    assert_eq!(classify(&stage.command), CommandKind::External);
                }
            }
        }
    }
}
