use rio_sessions::context::{
    AttachTarget, IdCounter, PaneBackend, PaneSpawn, PersistenceOptions, Shell, LOCAL_ATTACH_SECS,
    SSH_ATTACH_SECS,
};
use rio_sessions::opening::{OpenAction, OpenEvent, Opening, PaneConfig};

fn config(persistent: bool) -> PaneConfig {
    PaneConfig {
        shell: Shell { program: "zsh".into(), args: vec!["-l".into()] },
        working_dir: Some("/home".into()),
        use_fork: true,
        persistence: if persistent { Some(PersistenceOptions { ring_bytes: 4096 }) } else { None },
        session_name: Some("work".into()),
        columns: 80,
        lines: 70000,
        least_columns: 2,
        least_lines: 1,
    }
}

fn daemon() -> AttachTarget {
    AttachTarget::Unix { pane_id: "ab".into(), socket: "/s".into() }
}

#[test]
fn a_shell_runs_here_unless_panes_are_kept() {
    let mut routes = IdCounter { next: 5 };
    let (mut pane, action) = Opening::create_context(&mut routes, config(false), None, false);
    match action {
        OpenAction::Fork { program, columns, rows } => {
            assert_eq!((program.as_str(), columns, rows), ("zsh", 80, 1));
        }
        other => panic!("{other:?}"),
    }
    match pane.step(&mut routes, OpenEvent::Started { shell_pid: 9 }) {
        OpenAction::Opened(opened) => {
            assert_eq!((opened.route, opened.shell_pid), (5, 9));
            assert!(matches!(opened.backend, PaneBackend::Local));
        }
        other => panic!("{other:?}"),
    }
    assert_eq!(routes.next, 6);
    assert!(matches!(
        pane.step(&mut routes, OpenEvent::Started { shell_pid: 9 }),
        OpenAction::Idle
    ));
}

#[test]
fn a_daemon_that_cannot_be_launched_is_done_without() {
    let mut routes = IdCounter { next: 0 };
    let (mut pane, action) = Opening::create_context(&mut routes, config(true), None, false);
    match action {
        OpenAction::Launch { ring_bytes, program, args, working_dir, session_name } => {
            assert_eq!((ring_bytes, program.as_str(), args.len()), (4096, "zsh", 1));
            assert_eq!(working_dir.as_deref(), Some("/home"));
            assert_eq!(session_name.as_deref(), Some("work"));
        }
        other => panic!("{other:?}"),
    }
    let next = pane.step(&mut routes, OpenEvent::NoDaemon("missing".into()));
    assert!(matches!(next, OpenAction::Fork { .. }));
    match pane.step(&mut routes, OpenEvent::NotStarted("no shell".into())) {
        OpenAction::Failed(why) => assert_eq!(why, "no shell"),
        other => panic!("{other:?}"),
    }
    assert_eq!(routes.next, 2);
}

#[test]
fn a_launched_daemon_replays_nothing() {
    let mut routes = IdCounter { next: 0 };
    let (mut pane, _) = Opening::create_context(&mut routes, config(true), None, false);
    let event = OpenEvent::Launched {
        pane_id: "cd".into(),
        socket: "/t".into(),
        shell_pid: 3,
        cwd: Some("/w".into()),
    };
    match pane.step(&mut routes, event) {
        OpenAction::Opened(opened) => match opened.backend {
            PaneBackend::Ptyd { pane_id, socket, host, reported_cwd, replayed } => {
                assert_eq!((pane_id.as_str(), socket.as_str()), ("cd", "/t"));
                assert_eq!((host, reported_cwd.as_deref(), replayed), (None, Some("/w"), false));
            }
            other => panic!("{other:?}"),
        },
        other => panic!("{other:?}"),
    }
}

#[test]
fn an_explicit_attach_reports_its_failure() {
    let mut routes = IdCounter { next: 0 };
    let far = AttachTarget::Ssh { host: "h".into(), pane_id: "ab".into() };
    let (mut pane, action) = Opening::create_context(&mut routes, config(true), Some(far), false);
    assert!(matches!(action, OpenAction::Attach { secs, .. } if secs == SSH_ATTACH_SECS));
    match pane.step(&mut routes, OpenEvent::NoDaemon("refused".into())) {
        OpenAction::Failed(why) => assert_eq!(why, "refused"),
        other => panic!("{other:?}"),
    }
    let (mut pane, action) = Opening::create_context(&mut routes, config(false), Some(daemon()), false);
    assert!(matches!(action, OpenAction::Attach { secs, .. } if secs == LOCAL_ATTACH_SECS));
    match pane.step(&mut routes, OpenEvent::Attached { shell_pid: 4, cwd: None }) {
        OpenAction::Opened(opened) => {
            assert!(matches!(opened.backend, PaneBackend::Ptyd { replayed: true, .. }));
        }
        other => panic!("{other:?}"),
    }
}

#[test]
fn a_restored_pane_without_its_daemon_starts_where_it_was() {
    let mut routes = IdCounter { next: 0 };
    let spawn = PaneSpawn { cwd: Some("/saved".into()), attach: Some(daemon()) };
    let (mut pane, action) =
        Opening::create_restored_context(&mut routes, config(true), spawn.clone());
    assert!(matches!(action, OpenAction::Attach { .. }));
    match pane.step(&mut routes, OpenEvent::NoDaemon("gone".into())) {
        OpenAction::LookUp(dir) => assert_eq!(dir, "/saved"),
        other => panic!("{other:?}"),
    }
    match pane.step(&mut routes, OpenEvent::LookedUp { is_dir: true }) {
        OpenAction::Launch { working_dir, .. } => assert_eq!(working_dir.as_deref(), Some("/saved")),
        other => panic!("{other:?}"),
    }
    let next = pane.step(&mut routes, OpenEvent::NoDaemon("missing".into()));
    match next {
        OpenAction::Start { args, working_dir, .. } => {
            assert_eq!(args, vec!["-l".to_string()]);
            assert_eq!(working_dir.as_deref(), Some("/saved"));
        }
        other => panic!("{other:?}"),
    }

    let spawn = PaneSpawn { cwd: Some("/saved".into()), attach: None };
    let (mut pane, action) = Opening::create_restored_context(&mut routes, config(false), spawn);
    assert!(matches!(action, OpenAction::LookUp(_)));
    let next = pane.step(&mut routes, OpenEvent::LookedUp { is_dir: false });
    assert!(matches!(next, OpenAction::Fork { .. }));

    let (_, action) =
        Opening::create_restored_context(&mut routes, config(true), PaneSpawn::default());
    assert!(matches!(action, OpenAction::Launch { .. }));
}

#[test]
fn a_shell_that_is_forced_runs_here() {
    let mut routes = IdCounter { next: 2 };
    let (mut pane, action) =
        Opening::create_context(&mut routes, config(true), Some(daemon()), true);
    assert!(matches!(action, OpenAction::Fork { .. }));
    match pane.step(&mut routes, OpenEvent::Started { shell_pid: 4 }) {
        OpenAction::Opened(opened) => {
            assert_eq!(opened.route, 2);
            assert!(matches!(opened.backend, PaneBackend::Local));
        }
        other => panic!("{other:?}"),
    }
}
