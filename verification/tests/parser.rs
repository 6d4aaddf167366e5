use rush::command::CommandList;
use rush::command::JoinOperator;
use rush::command::ParseError;
use rush::command::RedirectSpec;
use rush::line_parser::LineParser;
use rush::line_parser::ParseOutcome;

fn parse_one(line: &str) -> CommandList {
    let mut p = LineParser::new();
    match p.parse_line(line) {
        ParseOutcome::Parsed(l) => l,
        _ => panic!("expected a parsed statement for {:?}", line),
    }
}

#[test]
fn empty_line_is_no_command() {
    let mut p = LineParser::new();
    assert!(matches!(p.parse_line(""), ParseOutcome::Empty));
    assert!(matches!(p.parse_line("   \t "), ParseOutcome::Empty));
}

#[test]
fn comment_line_is_no_command() {
    let mut p = LineParser::new();
    assert!(matches!(p.parse_line("# just a note"), ParseOutcome::Empty));
    // A comment after a command leaves the command intact.
    let l = parse_one("ls # list things");
    assert_eq!(l.entries[0].pipeline.commands[0].argv, vec!["ls".to_string()]);
}

#[test]
fn simple_command_with_arguments() {
    let l = parse_one("echo one two");
    assert_eq!(l.entries.len(), 1);
    let p = &l.entries[0].pipeline;
    assert!(!p.background);
    assert_eq!(p.commands.len(), 1);
    assert_eq!(
        p.commands[0].argv,
        vec!["echo".to_string(), "one".to_string(), "two".to_string()]
    );
    assert!(matches!(l.entries[0].join, JoinOperator::End));
}

#[test]
fn single_quotes_are_literal() {
    // 'a|b' is one argument, not a pipeline.
    let l = parse_one("'a|b'");
    assert_eq!(l.entries.len(), 1);
    let p = &l.entries[0].pipeline;
    assert_eq!(p.commands.len(), 1);
    assert_eq!(p.commands[0].argv, vec!["a|b".to_string()]);
}

#[test]
fn single_quotes_keep_blanks_and_operators() {
    let l = parse_one("echo 'a && b > c # d'");
    assert_eq!(
        l.entries[0].pipeline.commands[0].argv,
        vec!["echo".to_string(), "a && b > c # d".to_string()]
    );
}

#[test]
fn double_quotes_are_literal_too() {
    let l = parse_one("echo \"a b\"");
    assert_eq!(
        l.entries[0].pipeline.commands[0].argv,
        vec!["echo".to_string(), "a b".to_string()]
    );
}

#[test]
fn adjacent_quoted_pieces_join_into_one_word() {
    let l = parse_one("echo 'a'b\"c\"");
    assert_eq!(
        l.entries[0].pipeline.commands[0].argv,
        vec!["echo".to_string(), "abc".to_string()]
    );
}

#[test]
fn empty_quotes_make_an_empty_argument() {
    let l = parse_one("echo ''");
    assert_eq!(
        l.entries[0].pipeline.commands[0].argv,
        vec!["echo".to_string(), "".to_string()]
    );
}

#[test]
fn open_quote_is_pending_not_error() {
    let mut p = LineParser::new();
    assert!(matches!(p.parse_line("echo 'a"), ParseOutcome::Pending));
    // The continuation joins with a newline, as if the whole text had
    // been supplied at once.
    match p.parse_line("b'") {
        ParseOutcome::Parsed(l) => {
            assert_eq!(
                l.entries[0].pipeline.commands[0].argv,
                vec!["echo".to_string(), "a\nb".to_string()]
            );
        },
        _ => panic!("expected the continuation to complete the statement"),
    }
    // The buffer is cleared afterwards.
    let l = parse_one("ls");
    assert_eq!(l.entries[0].pipeline.commands[0].argv, vec!["ls".to_string()]);
}

#[test]
fn odd_double_quote_is_pending_too() {
    let mut p = LineParser::new();
    assert!(matches!(p.parse_line("echo \"x"), ParseOutcome::Pending));
    assert!(matches!(p.parse_line("y\""), ParseOutcome::Parsed(_)));
}

#[test]
fn pipeline_splits_on_bars() {
    let l = parse_one("a | b | c");
    assert_eq!(l.entries.len(), 1);
    let p = &l.entries[0].pipeline;
    assert_eq!(p.commands.len(), 3);
    assert_eq!(p.commands[0].argv, vec!["a".to_string()]);
    assert_eq!(p.commands[1].argv, vec!["b".to_string()]);
    assert_eq!(p.commands[2].argv, vec!["c".to_string()]);
}

#[test]
fn join_operators_split_pipelines() {
    let l = parse_one("a && b || c; d");
    assert_eq!(l.entries.len(), 4);
    assert!(matches!(l.entries[0].join, JoinOperator::AndThen));
    assert!(matches!(l.entries[1].join, JoinOperator::OrElse));
    assert!(matches!(l.entries[2].join, JoinOperator::Sequential));
    assert!(matches!(l.entries[3].join, JoinOperator::End));
    assert_eq!(l.entries[3].pipeline.commands[0].argv, vec!["d".to_string()]);
}

#[test]
fn trailing_ampersand_backgrounds_the_last_pipeline() {
    let l = parse_one("sleep 1 &");
    assert_eq!(l.entries.len(), 1);
    assert!(l.entries[0].pipeline.background);
    assert_eq!(
        l.entries[0].pipeline.commands[0].argv,
        vec!["sleep".to_string(), "1".to_string()]
    );
}

#[test]
fn earlier_pipelines_stay_foreground() {
    let l = parse_one("a; b &");
    assert_eq!(l.entries.len(), 2);
    assert!(!l.entries[0].pipeline.background);
    assert!(l.entries[1].pipeline.background);
}

#[test]
fn dangling_operators_reject_the_line() {
    let mut p = LineParser::new();
    assert!(matches!(
        p.parse_line("a |"),
        ParseOutcome::Failed(ParseError::DanglingOperator)
    ));
    assert!(matches!(
        p.parse_line("a &&"),
        ParseOutcome::Failed(ParseError::DanglingOperator)
    ));
    assert!(matches!(
        p.parse_line("| a"),
        ParseOutcome::Failed(ParseError::DanglingOperator)
    ));
    assert!(matches!(
        p.parse_line("a > "),
        ParseOutcome::Failed(ParseError::DanglingOperator)
    ));
    assert!(matches!(
        p.parse_line("a & b"),
        ParseOutcome::Failed(ParseError::DanglingOperator)
    ));
    assert!(matches!(
        p.parse_line(";"),
        ParseOutcome::Failed(ParseError::DanglingOperator)
    ));
}

#[test]
fn trailing_semicolon_is_fine() {
    let l = parse_one("a;");
    assert_eq!(l.entries.len(), 1);
    assert!(matches!(l.entries[0].join, JoinOperator::Sequential));
}

#[test]
fn output_redirection_leaves_argv() {
    let l = parse_one("echo hi > out.txt");
    let c = &l.entries[0].pipeline.commands[0];
    assert_eq!(c.argv, vec!["echo".to_string(), "hi".to_string()]);
    assert_eq!(c.redirects.len(), 1);
    match &c.redirects[0] {
        RedirectSpec::Output { fd, path } => {
            assert_eq!(*fd, 1);
            assert_eq!(path, "out.txt");
        },
        _ => panic!("expected an output redirection"),
    }
}

#[test]
fn input_append_and_numbered_redirections() {
    let l = parse_one("prog < in.txt >> log.txt 2> err.txt");
    let c = &l.entries[0].pipeline.commands[0];
    assert_eq!(c.argv, vec!["prog".to_string()]);
    assert_eq!(c.redirects.len(), 3);
    match &c.redirects[0] {
        RedirectSpec::Input { fd, path } => {
            assert_eq!(*fd, 0);
            assert_eq!(path, "in.txt");
        },
        _ => panic!("expected an input redirection"),
    }
    match &c.redirects[1] {
        RedirectSpec::Append { fd, path } => {
            assert_eq!(*fd, 1);
            assert_eq!(path, "log.txt");
        },
        _ => panic!("expected an append redirection"),
    }
    match &c.redirects[2] {
        RedirectSpec::Output { fd, path } => {
            assert_eq!(*fd, 2);
            assert_eq!(path, "err.txt");
        },
        _ => panic!("expected a numbered output redirection"),
    }
}

#[test]
fn descriptor_duplication() {
    let l = parse_one("prog > f 2>&1");
    let c = &l.entries[0].pipeline.commands[0];
    assert_eq!(c.redirects.len(), 2);
    match &c.redirects[1] {
        RedirectSpec::FdDup { fd, target } => {
            assert_eq!(*fd, 2);
            assert_eq!(*target, 1);
        },
        _ => panic!("expected a descriptor duplication"),
    }
}

#[test]
fn digits_bind_to_redirect_only_when_adjacent() {
    // `echo 2> f`: the 2 names the descriptor, not an argument.
    let l = parse_one("echo 2> f");
    let c = &l.entries[0].pipeline.commands[0];
    assert_eq!(c.argv, vec!["echo".to_string()]);
    assert!(matches!(&c.redirects[0], RedirectSpec::Output { fd: 2, .. }));
    // `echo a2> f`: a2 is an argument, the descriptor defaults to 1.
    let l = parse_one("echo a2> f");
    let c = &l.entries[0].pipeline.commands[0];
    assert_eq!(c.argv, vec!["echo".to_string(), "a2".to_string()]);
    assert!(matches!(&c.redirects[0], RedirectSpec::Output { fd: 1, .. }));
    // `echo 2 > f`: the space detaches the digit; it stays an argument.
    let l = parse_one("echo 2 > f");
    let c = &l.entries[0].pipeline.commands[0];
    assert_eq!(c.argv, vec!["echo".to_string(), "2".to_string()]);
    assert!(matches!(&c.redirects[0], RedirectSpec::Output { fd: 1, .. }));
}

#[test]
fn dup_target_must_be_numeric() {
    let mut p = LineParser::new();
    assert!(matches!(
        p.parse_line("a 2>&x"),
        ParseOutcome::Failed(ParseError::DanglingOperator)
    ));
}

#[test]
fn operators_need_no_surrounding_blanks() {
    let l = parse_one("a|b&&c");
    assert_eq!(l.entries.len(), 2);
    assert_eq!(l.entries[0].pipeline.commands.len(), 2);
    assert_eq!(l.entries[0].pipeline.commands[0].argv, vec!["a".to_string()]);
    assert_eq!(l.entries[0].pipeline.commands[1].argv, vec!["b".to_string()]);
    assert!(matches!(l.entries[0].join, JoinOperator::AndThen));
    assert_eq!(l.entries[1].pipeline.commands[0].argv, vec!["c".to_string()]);
}

#[test]
fn redirection_in_the_middle_leaves_later_arguments() {
    let l = parse_one("echo > f hi");
    let c = &l.entries[0].pipeline.commands[0];
    assert_eq!(c.argv, vec!["echo".to_string(), "hi".to_string()]);
    assert_eq!(c.redirects.len(), 1);
    assert!(matches!(&c.redirects[0], RedirectSpec::Output { fd: 1, .. }));
}

#[test]
fn redirection_without_command_word_is_rejected() {
    let mut p = LineParser::new();
    assert!(matches!(
        p.parse_line("> f"),
        ParseOutcome::Failed(ParseError::DanglingOperator)
    ));
}
