use rush::command::RedirectSpec;
use rush::line_parser::LineParser;
use rush::line_parser::ParseOutcome;
use rush::redirect::FdAction;
use rush::redirect::resolve;

#[test]
fn each_redirection_maps_to_its_action() {
    let specs = vec![
        RedirectSpec::Input { fd: 0, path: "in".to_string() },
        RedirectSpec::Output { fd: 1, path: "out".to_string() },
        RedirectSpec::Append { fd: 1, path: "log".to_string() },
        RedirectSpec::FdDup { fd: 2, target: 1 },
    ];
    let acts = resolve(&specs);
    assert_eq!(acts.len(), 4);
    match &acts[0] {
        FdAction::OpenRead { path, fd } => {
            assert_eq!(path, "in");
            assert_eq!(*fd, 0);
        },
        _ => panic!("expected a read open"),
    }
    match &acts[1] {
        FdAction::OpenWrite { path, fd } => {
            assert_eq!(path, "out");
            assert_eq!(*fd, 1);
        },
        _ => panic!("expected a truncating open"),
    }
    match &acts[2] {
        FdAction::OpenAppend { path, fd } => {
            assert_eq!(path, "log");
            assert_eq!(*fd, 1);
        },
        _ => panic!("expected an appending open"),
    }
    match &acts[3] {
        FdAction::Dup { from_fd, to_fd } => {
            assert_eq!(*from_fd, 1);
            assert_eq!(*to_fd, 2);
        },
        _ => panic!("expected a duplication"),
    }
}

#[test]
fn parsed_redirections_resolve_in_source_order() {
    let mut p = LineParser::new();
    let l = match p.parse_line("prog > first > second") {
        ParseOutcome::Parsed(l) => l,
        _ => panic!("expected a parsed statement"),
    };
    let acts = resolve(&l.entries[0].pipeline.commands[0].redirects);
    // Both opens are planned; applied in order, the second wins.
    assert_eq!(acts.len(), 2);
    assert!(matches!(&acts[0], FdAction::OpenWrite { fd: 1, .. }));
    match &acts[1] {
        FdAction::OpenWrite { path, fd } => {
            assert_eq!(path, "second");
            assert_eq!(*fd, 1);
        },
        _ => panic!("expected the later open"),
    }
}

#[test]
fn empty_command_has_empty_plan() {
    let acts = resolve(&vec![]);
    assert!(acts.is_empty());
}
