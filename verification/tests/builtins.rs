use rush::builtin::BuiltinCall;
use rush::builtin::Invocation;
use rush::builtin::ShellState;
use rush::builtin::builtin_for_pipeline;
use rush::builtin::classify;
use rush::command::Command;
use rush::command::Pipeline;

fn argv(words: &[&str]) -> Vec<String> {
    words.iter().map(|w| w.to_string()).collect()
}

#[test]
fn cd_with_and_without_target() {
    match classify(&argv(&["cd", "/tmp"])) {
        Invocation::Builtin(BuiltinCall::Cd { target }) => {
            assert_eq!(target.as_deref(), Some("/tmp"));
        },
        _ => panic!("expected cd"),
    }
    match classify(&argv(&["cd"])) {
        Invocation::Builtin(BuiltinCall::Cd { target }) => assert!(target.is_none()),
        _ => panic!("expected cd"),
    }
}

#[test]
fn exit_codes() {
    match classify(&argv(&["exit"])) {
        Invocation::Builtin(BuiltinCall::Exit { code }) => assert_eq!(code, 0),
        _ => panic!("expected exit"),
    }
    match classify(&argv(&["exit", "3"])) {
        Invocation::Builtin(BuiltinCall::Exit { code }) => assert_eq!(code, 3),
        _ => panic!("expected exit"),
    }
    // An unreadable code reports the conventional usage status.
    match classify(&argv(&["exit", "many"])) {
        Invocation::Builtin(BuiltinCall::Exit { code }) => assert_eq!(code, 2),
        _ => panic!("expected exit"),
    }
}

#[test]
fn export_splits_at_first_equals() {
    match classify(&argv(&["export", "PATH=/bin:/usr/bin"])) {
        Invocation::Builtin(BuiltinCall::Export { name, value }) => {
            assert_eq!(name, "PATH");
            assert_eq!(value, "/bin:/usr/bin");
        },
        _ => panic!("expected export"),
    }
    match classify(&argv(&["export", "A=b=c"])) {
        Invocation::Builtin(BuiltinCall::Export { name, value }) => {
            assert_eq!(name, "A");
            assert_eq!(value, "b=c");
        },
        _ => panic!("expected export"),
    }
}

#[test]
fn export_without_assignment_is_invalid() {
    assert!(matches!(
        classify(&argv(&["export"])),
        Invocation::Builtin(BuiltinCall::Invalid)
    ));
    assert!(matches!(
        classify(&argv(&["export", "NOEQ"])),
        Invocation::Builtin(BuiltinCall::Invalid)
    ));
    assert!(matches!(
        classify(&argv(&["export", "=v"])),
        Invocation::Builtin(BuiltinCall::Invalid)
    ));
}

#[test]
fn everything_else_is_external() {
    assert!(matches!(classify(&argv(&["ls", "-l"])), Invocation::External));
    assert!(matches!(classify(&argv(&["cdx"])), Invocation::External));
    assert!(matches!(classify(&argv(&["exits"])), Invocation::External));
}

#[test]
fn builtins_only_run_alone_in_a_pipeline() {
    let one = Pipeline {
        commands: vec![Command { argv: argv(&["cd", "/"]), redirects: vec![] }],
        background: false,
    };
    assert!(matches!(
        builtin_for_pipeline(&one),
        Some(BuiltinCall::Cd { .. })
    ));
    let two = Pipeline {
        commands: vec![
            Command { argv: argv(&["cd", "/"]), redirects: vec![] },
            Command { argv: argv(&["cat"]), redirects: vec![] },
        ],
        background: false,
    };
    assert!(builtin_for_pipeline(&two).is_none());
    let external = Pipeline {
        commands: vec![Command { argv: argv(&["ls"]), redirects: vec![] }],
        background: false,
    };
    assert!(builtin_for_pipeline(&external).is_none());
}

#[test]
fn failed_chdir_leaves_directory_and_fails() {
    // cd nonexistent: the working directory is unchanged and the status
    // is nonzero.
    let mut st = ShellState::new("/start".to_string());
    let status = st.apply_chdir(None);
    assert_ne!(status, 0);
    assert_eq!(st.cwd, "/start");
    // A later cd to a valid path still succeeds and is recorded.
    let status = st.apply_chdir(Some("/valid".to_string()));
    assert_eq!(status, 0);
    assert_eq!(st.cwd, "/valid");
}

#[test]
fn exported_variables_shadow_and_persist() {
    let mut st = ShellState::new("/".to_string());
    assert!(st.get_var(&"A".to_string()).is_none());
    assert_eq!(st.set_var("A".to_string(), "1".to_string()), 0);
    assert_eq!(st.get_var(&"A".to_string()), Some(&"1".to_string()));
    assert_eq!(st.set_var("A".to_string(), "2".to_string()), 0);
    assert_eq!(st.get_var(&"A".to_string()), Some(&"2".to_string()));
    assert_eq!(st.set_var("B".to_string(), "x".to_string()), 0);
    assert_eq!(st.get_var(&"A".to_string()), Some(&"2".to_string()));
    assert_eq!(st.get_var(&"B".to_string()), Some(&"x".to_string()));
}

#[test]
fn apply_export_binds_and_rejects() {
    let mut st = ShellState::new("/".to_string());
    let ok = st.apply_export(&BuiltinCall::Export {
        name: "HOME".to_string(),
        value: "/root".to_string(),
    });
    assert_eq!(ok, 0);
    assert_eq!(st.get_var(&"HOME".to_string()), Some(&"/root".to_string()));
    let bad = st.apply_export(&BuiltinCall::Invalid);
    assert_ne!(bad, 0);
    assert_eq!(st.get_var(&"HOME".to_string()), Some(&"/root".to_string()));
}
