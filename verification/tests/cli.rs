use rio_sessions::cli::{
    gc_action, in_session, linger_reap_due, listing_order, orphaned_socket, parse_args, render_list,
    resolve_socket, sanitize, visible_foreground, Command, GcAction, PaneFacts, SortKey,
    LINGER_REAP_GRACE_SECS, STALE_SECS,
};
use rio_sessions::launch::{choose_id, spawn_spec, IdChoice, SpawnArgs};
use rio_sessions::pane::{
    by_creation, directory_fault, is_hex_prefix, is_valid_pane_id, log_path, meta_path,
    meta_temp_path, pane_id_from_bytes, pid_alive, pid_matches_start, resolve_pane_id, socket_path,
    DirFault, PaneMeta, METADATA_VERSION, START_SLACK_SECS,
};

fn meta(created_at: u64, exited_at: Option<u64>) -> PaneMeta {
    PaneMeta {
        version: METADATA_VERSION,
        pane_id: "a".into(),
        daemon_pid: 1,
        shell_pid: 2,
        program: "/bin/sh".into(),
        args: Vec::new(),
        cwd: None,
        created_at,
        exited_status: Some(0),
        exited_at,
        session: None,
    }
}

#[test]
fn linger_reap_grace_runs_from_exit() {
    let now = 100_000;
    // Old pane, shell exited just now: not reapable yet.
    assert!(!linger_reap_due(&meta(now - 10_000, Some(now - 5)), now));
    // Exit past the grace: reapable.
    assert!(linger_reap_due(
        &meta(now - 10_000, Some(now - LINGER_REAP_GRACE_SECS - 1)),
        now
    ));
    assert!(!linger_reap_due(
        &meta(now - 10_000, Some(now - LINGER_REAP_GRACE_SECS)),
        now
    ));
}

#[test]
fn linger_reap_without_exit_stamp_falls_back_to_spawn_age() {
    let now = 100_000;
    assert!(!linger_reap_due(&meta(now - 30, None), now));
    assert!(linger_reap_due(
        &meta(now - LINGER_REAP_GRACE_SECS - 1, None),
        now
    ));
}

#[test]
fn pane_id_validation() {
    assert!(is_valid_pane_id("0123456789abcdef0123456789abcdef"));
    assert!(!is_valid_pane_id("0123456789ABCDEF0123456789ABCDEF"));
    assert!(!is_valid_pane_id("short"));
    assert!(!is_valid_pane_id("../../../../etc/passwd00000000000"));
    assert!(is_valid_pane_id(&pane_id_from_bytes(&[0xA5; 16])));
}

fn args(words: &[&str]) -> Vec<String> {
    words.iter().map(|w| w.to_string()).collect()
}

fn parse(words: &[&str]) -> Command {
    parse_args(&args(words), Some("/bin/zsh".to_string()))
}

fn pane(id: &str, session: Option<&str>, created_at: u64) -> PaneMeta {
    PaneMeta {
        pane_id: id.into(),
        session: session.map(str::to_string),
        exited_status: None,
        ..meta(created_at, None)
    }
}

const A: &str = "aaaaaaaa000000000000000000000001";
const B: &str = "bbbbbbbb000000000000000000000002";
const A2: &str = "aaaaaaaa000000000000000000000003";

#[test]
fn a_pane_id_is_its_bytes_in_hex() {
    let mut bytes = [0u8; 16];
    bytes[0] = 0x0F;
    bytes[15] = 0xA0;
    assert_eq!(pane_id_from_bytes(&bytes), "0f0000000000000000000000000000a0");
}

#[test]
fn a_prefix_means_a_pane_only_where_it_is_unique() {
    let panes = vec![pane(A, None, 1), pane(B, None, 2), pane(A2, None, 3)];
    assert_eq!(resolve_pane_id(&panes, "bb").as_deref(), Some(B));
    assert_eq!(resolve_pane_id(&panes, "aaaaaaaa"), None);
    assert_eq!(resolve_pane_id(&panes, A2).as_deref(), Some(A2));
    assert_eq!(resolve_pane_id(&panes, "cc"), None);
    assert_eq!(resolve_pane_id(&panes, "../b"), None);
    assert!(is_hex_prefix("0a"));
    assert!(!is_hex_prefix(""));
    assert!(!is_hex_prefix("0A"));
}

#[test]
fn the_files_of_a_pane() {
    assert_eq!(socket_path(b"/run/rio", "ab"), b"/run/rio/ab.sock");
    assert_eq!(meta_path(b"/run/rio/", "ab"), b"/run/rio/ab.json");
    assert_eq!(meta_temp_path(b"/run/rio", "ab"), b"/run/rio/ab.json.tmp");
    assert_eq!(log_path(b"/run/rio", "ab"), b"/run/rio/ab.log");
    assert_eq!(log_path(b"", "/ab"), b"/ab.log");
    // A directory whose name is no text keeps it.
    assert_eq!(socket_path(b"/run/\xffio", "ab"), b"/run/\xffio/ab.sock");
}

#[test]
fn only_a_directory_of_ones_own_holds_sockets() {
    assert_eq!(directory_fault(true, 7, 7, 0o40700), None);
    assert_eq!(directory_fault(true, 7, 7, 0o40710), Some(DirFault::Permissions));
    assert_eq!(directory_fault(true, 7, 7, 0o40701), Some(DirFault::Permissions));
    assert_eq!(directory_fault(true, 8, 7, 0o40777), Some(DirFault::Ownership));
    assert_eq!(directory_fault(false, 8, 7, 0o777), Some(DirFault::NotADirectory));
}

#[test]
fn panes_come_in_the_order_of_their_creation() {
    let ids = |panes: Vec<PaneMeta>| -> Vec<String> {
        by_creation(panes).into_iter().map(|m| m.pane_id).collect()
    };
    let panes = ["d", "a", "c", "b", "e"].into_iter().zip([4, 1, 3, 3, 1]);
    assert_eq!(ids(panes.map(|(id, at)| pane(id, None, at)).collect()), ["a", "e", "c", "b", "d"]);
    assert!(ids(Vec::new()).is_empty());
}

#[test]
fn a_pid_that_was_given_away_is_another_process() {
    assert!(pid_matches_start(true, Some(100 + START_SLACK_SECS), 100));
    assert!(!pid_matches_start(true, Some(101 + START_SLACK_SECS), 100));
    assert!(pid_matches_start(true, None, 100));
    assert!(!pid_matches_start(false, None, 100));
    assert!(pid_alive(5, 0));
    assert!(!pid_alive(0, 0));
    assert!(!pid_alive(5, -1));
}

#[test]
fn commands_are_told_apart() {
    assert!(matches!(parse(&[]), Command::Usage));
    assert!(matches!(parse(&["frob"]), Command::Usage));
    assert!(matches!(
        parse(&["list", "--json", "--full", "--sort", "pid"]),
        Command::List { json: true, full: true, sort: SortKey::Pid }
    ));
    assert!(matches!(
        parse(&["list"]),
        Command::List { json: false, full: false, sort: SortKey::Session }
    ));
    assert!(matches!(parse(&["list", "--sort", "size"]), Command::BadSort));
    assert!(matches!(parse(&["list", "--sort"]), Command::BadSort));
    assert!(matches!(parse(&["list", "--x"]), Command::Usage));
    assert!(matches!(parse(&["kill"]), Command::Usage));
    assert!(matches!(parse(&["kill", "ab"]), Command::Kill { id } if id == "ab"));
    assert!(matches!(parse(&["gc"]), Command::Gc { dry_run: false }));
    assert!(matches!(parse(&["gc", "--dry-run"]), Command::Gc { dry_run: true }));
    assert!(matches!(parse(&["kill-session"]), Command::BadKillSession));
    assert!(matches!(parse(&["kill-session", "--unnamed", "w"]), Command::BadKillSession));
    assert!(matches!(
        parse(&["kill-session", "--dry-run", "--unnamed"]),
        Command::KillSession { dry_run: true, name: None }
    ));
    assert!(matches!(
        parse(&["kill-session", "work"]),
        Command::KillSession { dry_run: false, name: Some(n) } if n == "work"
    ));
    assert!(matches!(
        parse(&["attach", "--stdio", "--no-replay", "ab"]),
        Command::Attach { stdio: true, no_replay: true, target } if target == "ab"
    ));
    assert!(matches!(parse(&["attach"]), Command::Usage));
}

#[test]
fn a_spawn_takes_its_options_and_its_program() {
    let command = parse(&[
        "spawn", "--pane-id", A, "--cwd", "/tmp", "--ring-size", "8192", "--env", "K=a=b", "--session",
        "work", "--", "vim", "-R",
    ]);
    let Command::Spawn(spawn) = command else { panic!("not a spawn") };
    assert_eq!(spawn.pane_id.as_deref(), Some(A));
    assert_eq!(spawn.cwd.as_deref(), Some("/tmp"));
    assert_eq!(spawn.ring_size, 8192);
    assert_eq!(spawn.env, [("K".to_string(), "a=b".to_string())]);
    assert_eq!(spawn.session.as_deref(), Some("work"));
    assert_eq!(spawn.program, "vim");
    assert_eq!(spawn.args, ["-R"]);
    assert!(matches!(choose_id(&spawn), IdChoice::Given(id) if id == A));
}

#[test]
fn a_spawn_without_a_program_runs_the_shell() {
    let Command::Spawn(spawn) = parse(&["spawn"]) else { panic!("not a spawn") };
    assert_eq!(spawn.program, "/bin/zsh");
    assert!(spawn.args.is_empty());
    assert!(matches!(choose_id(&spawn), IdChoice::Fresh));
}

fn spawn_args(program: &str) -> SpawnArgs {
    SpawnArgs {
        pane_id: Some("short".into()),
        cwd: None,
        ring_size: 4096,
        env: vec![("TERM".into(), "vt100".into())],
        session: None,
        program: program.into(),
        args: args(&["-l"]),
    }
}

#[test]
fn a_program_runs_with_a_terminal_type() {
    let plan = spawn_spec(&spawn_args("/bin/sh")).unwrap();
    assert_eq!(plan.program, "/bin/sh");
    assert_eq!(plan.argv, ["/bin/sh", "-l"]);
    assert_eq!((plan.rows, plan.cols), (25, 80));
    assert_eq!(
        plan.env,
        [
            ("TERM".to_string(), "vt100".to_string()),
            ("COLORTERM".to_string(), "truecolor".to_string())
        ]
    );
    assert_eq!(spawn_spec(&spawn_args("a\0b")).err(), Some(1));
    // The position is one of bytes, in the first text that holds a NUL.
    let mut many = spawn_args("sh");
    many.env = vec![("K".into(), "v".into()), ("\u{e9}\0".into(), "\0".into())];
    assert_eq!(spawn_spec(&many).err(), Some(2));
    many.cwd = Some("/tmp\0".into());
    assert_eq!(spawn_spec(&many).err(), Some(4));
    many.args = args(&["ok", "\0x\0"]);
    assert_eq!(spawn_spec(&many).err(), Some(0));
    assert!(matches!(choose_id(&spawn_args("x")), IdChoice::Invalid));
}

#[test]
fn an_attach_names_a_pane_or_a_socket() {
    let panes = vec![pane(A, None, 1), pane(B, None, 2)];
    assert_eq!(resolve_socket(A, b"/r", &panes, false).ok(), Some(format!("/r/{A}.sock").into()));
    assert_eq!(resolve_socket("bb", b"/r", &panes, false).ok(), Some(format!("/r/{B}.sock").into()));
    assert_eq!(resolve_socket("/x.sock", b"/r", &panes, true).ok(), Some("/x.sock".into()));
    assert!(resolve_socket("zz", b"/r", &panes, false).is_err());
}

#[test]
fn what_a_cleanup_does_to_a_pane() {
    let now = 100_000;
    let old = meta(now - 10_000, None);
    assert_eq!(gc_action(&old, false, false, now), GcAction::RemoveFiles);
    assert_eq!(gc_action(&meta(now - STALE_SECS, None), false, false, now), GcAction::Keep);
    assert_eq!(gc_action(&old, true, true, now), GcAction::Reap);
    assert_eq!(gc_action(&pane(A, None, 0), true, true, now), GcAction::Keep);
    assert_eq!(gc_action(&meta(now - 10, None), true, true, now), GcAction::Keep);
}

#[test]
fn a_socket_without_a_pane_is_found() {
    let file = format!("{A}.sock");
    assert_eq!(orphaned_socket(&file, false, Some(STALE_SECS + 1), false).as_deref(), Some(A));
    assert_eq!(orphaned_socket(&file, true, Some(STALE_SECS + 1), false), None);
    assert_eq!(orphaned_socket(&file, false, Some(STALE_SECS), false), None);
    assert_eq!(orphaned_socket(&file, false, None, false), None);
    assert_eq!(orphaned_socket(&file, false, Some(1000), true), None);
    assert_eq!(orphaned_socket("x.sock", false, Some(1000), false), None);
}

#[test]
fn an_empty_session_is_unnamed() {
    assert!(in_session(&pane(A, Some("work"), 1), &Some("work".into())));
    assert!(!in_session(&pane(A, Some("work"), 1), &None));
    assert!(in_session(&pane(A, Some(""), 1), &None));
    assert!(in_session(&pane(A, None, 1), &None));
}

fn facts(alive: bool, foreground: Option<&str>) -> PaneFacts {
    PaneFacts { alive, foreground: foreground.map(str::to_string), created: "NOW".into() }
}

#[test]
fn a_table_lines_up() {
    let mut a = pane(A, Some("work"), 2);
    a.cwd = Some("/tmp".into());
    let mut b = pane(B, None, 1);
    b.exited_status = Some(-1);
    let lines = render_list(
        &vec![b, a],
        &vec![facts(true, Some("vim")), facts(true, Some("v\x1bm"))],
        false,
        SortKey::Session,
    );
    assert_eq!(
        lines,
        [
            format!("PANE ID   STATE              PID  SESSION         {:<40}  CREATED", "ACTIVITY"),
            format!("aaaaaaaa  running              2  [work]          {:<40}  NOW", "v?m"),
            format!("bbbbbbbb  exited(-1)           2  [-]             {:<40}  NOW", "-"),
        ]
    );
}

#[test]
fn short_ids_that_collide_are_shown_whole() {
    let panes = vec![pane(A, None, 1), pane(A2, None, 2)];
    let facts = vec![facts(false, Some("vim")), facts(false, None)];
    let lines = render_list(&panes, &facts, false, SortKey::Created);
    assert!(lines[1].starts_with(A) && lines[1].contains("dead"));
    assert!(lines[2].starts_with(A2));
    assert_eq!(visible_foreground(&panes[0], &facts[0]), None);
    assert!(render_list(&Vec::new(), &Vec::new(), true, SortKey::Id).is_empty());
}

#[test]
fn a_list_is_ordered_by_what_was_asked() {
    let mut panes = vec![
        pane(B, Some("b"), 3),
        pane(A2, None, 1),
        pane(A, Some("a"), 2),
        pane("c", Some("a"), 1),
    ];
    panes[0].shell_pid = 1;
    assert_eq!(listing_order(&panes, SortKey::Session), [3, 2, 0, 1]);
    assert_eq!(listing_order(&panes, SortKey::Created), [1, 3, 2, 0]);
    assert_eq!(listing_order(&panes, SortKey::Id), [2, 1, 0, 3]);
    assert_eq!(listing_order(&panes, SortKey::Pid), [0, 1, 3, 2]);
}

#[test]
fn control_characters_are_not_shown() {
    assert_eq!(sanitize("a\x1b[31m\u{9b}b\n"), "a?[31m?b?");
}
