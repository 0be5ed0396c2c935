use rio_sessions::config::{Session, SessionRestore, DEFAULT_PERSISTENT_RING_BYTES};
use rio_sessions::confirm::{ConfirmClose, PendingClose};
use rio_sessions::context::{
    attach_timeout, attached_backend, autosave_of, clear_quit_detaching, fallback, fresh_start,
    hosting, kill_bytes, live_local_sockets, next_rich_text_id, open_url_path, pane_end,
    persistence_of, probes_locally, process_open_url, pty_cells, set_quit_detaching,
    spawned_backend, AttachTarget, Fallback, IdCounter, PaneBackend, PaneEnd, PathKind,
    PersistenceOptions, QuitDetaching, Shell, LOCAL_ATTACH_SECS, SSH_ATTACH_SECS,
};
use rio_sessions::protocol::{encode_client_hello, write_frame, FrameType};
use rio_sessions::ring::DEFAULT_RING_BYTES;

fn local(socket: &str) -> PaneBackend {
    spawned_backend("ab".into(), socket.into(), Some("/w".into()))
}

fn remote() -> PaneBackend {
    attached_backend(&AttachTarget::Ssh { host: "h".into(), pane_id: "ab".into() }, None)
}

#[test]
fn ids_count_up() {
    let mut ids = IdCounter { next: 7 };
    assert_eq!(next_rich_text_id(&mut ids), 7);
    assert_eq!(next_rich_text_id(&mut ids), 8);
    let mut ids = IdCounter { next: usize::MAX };
    assert_eq!(next_rich_text_id(&mut ids), usize::MAX);
    assert_eq!(next_rich_text_id(&mut ids), 0);
}

#[test]
fn what_becomes_of_a_pane_that_is_dropped() {
    let mut flag = QuitDetaching { on: false };
    assert!(matches!(pane_end(&local("/s"), flag.on), PaneEnd::KillDaemon(p) if p == "/s"));
    assert!(matches!(pane_end(&remote(), flag.on), PaneEnd::KillRemote));
    assert!(matches!(pane_end(&PaneBackend::Local, flag.on), PaneEnd::KillShell));
    set_quit_detaching(&mut flag);
    assert!(matches!(pane_end(&local("/s"), flag.on), PaneEnd::Detach));
    assert!(matches!(pane_end(&remote(), flag.on), PaneEnd::Detach));
    assert!(matches!(pane_end(&PaneBackend::Local, flag.on), PaneEnd::KillShell));
    clear_quit_detaching(&mut flag);
    assert!(!flag.on);
}

#[test]
fn a_daemon_is_killed_without_a_replay() {
    let bytes = kill_bytes();
    let mut kill = Vec::new();
    write_frame(&mut kill, FrameType::Kill, b"").unwrap();
    assert!(bytes.ends_with(&kill));
    assert_eq!(bytes[8..12], encode_client_hello()[..4]);
}

#[test]
fn panes_live_behind_daemons_where_the_settings_say_so() {
    let mut s = Session { restore: SessionRestore::Prompt, persistent: true, ..Session::default() };
    let options = Some(PersistenceOptions { ring_bytes: DEFAULT_PERSISTENT_RING_BYTES });
    assert_eq!(persistence_of(&s), options);
    assert!(!autosave_of(&s));
    s.restore = SessionRestore::Always;
    assert!(autosave_of(&s));
    s.restore = SessionRestore::Never;
    assert_eq!(persistence_of(&s), None);

    assert_eq!(hosting(false, options, false), Some(DEFAULT_PERSISTENT_RING_BYTES));
    assert_eq!(hosting(true, None, false), Some(DEFAULT_RING_BYTES));
    assert_eq!(hosting(true, options, true), None);
    assert_eq!(hosting(false, None, false), None);
}

#[test]
fn a_pane_that_cannot_be_had() {
    assert_eq!(fallback(true), Fallback::Report);
    assert_eq!(fallback(false), Fallback::Local);
    let ssh = Some(AttachTarget::Ssh { host: "h".into(), pane_id: "a".into() });
    let unix = Some(AttachTarget::Unix { pane_id: "a".into(), socket: "/s".into() });
    assert_eq!(attach_timeout(&ssh), SSH_ATTACH_SECS);
    assert_eq!(attach_timeout(&unix), LOCAL_ATTACH_SECS);
    assert_eq!(attach_timeout(&None), LOCAL_ATTACH_SECS);
    assert_eq!(pty_cells(80, 1), 80);
    assert_eq!(pty_cells(70_000, 24), 24);
}

#[test]
fn only_local_daemons_have_sockets_here() {
    let all = vec![PaneBackend::Local, local("/a"), remote(), local("/b")];
    assert_eq!(live_local_sockets(&all), ["/a", "/b"]);
    assert!(probes_locally(&local("/a")));
    assert!(probes_locally(&PaneBackend::Local));
    assert!(!probes_locally(&remote()));
}

#[test]
fn a_fresh_shell_starts_where_the_saved_one_was() {
    let some = |s: &str| Some(s.to_string());
    let start = fresh_start(&some("/saved"), true, &some("/home"), true);
    assert_eq!((start.working_dir.as_deref(), start.use_fork), (Some("/saved"), false));
    let start = fresh_start(&some("/gone"), false, &some("/home"), true);
    assert_eq!((start.working_dir.as_deref(), start.use_fork), (Some("/home"), true));
}

fn shell(program: &str) -> Shell {
    Shell { program: program.into(), args: vec!["-a".into()] }
}

#[test]
fn a_link_opens_a_file_or_a_directory() {
    assert_eq!(open_url_path(&None), None);
    assert_eq!(open_url_path(&Some("not a url".into())), None);
    assert_eq!(open_url_path(&Some("https://example.com/x".into())), None);
    let path = open_url_path(&Some("file:///tmp/a%20b".into())).unwrap();
    assert_eq!((path.exact.as_slice(), path.shown.as_str()), (b"/tmp/a b".as_slice(), "/tmp/a b"));
    // A path that is no text is looked up as it is, and shown as far as it can be.
    let odd = open_url_path(&Some("file:///tmp/%FFx".into())).unwrap();
    assert_eq!((odd.exact.as_slice(), odd.shown.as_str()), (b"/tmp/\xffx".as_slice(), "/tmp/\u{fffd}x"));

    let (s, dir) = process_open_url(
        shell("sh"), None, shell("vi"), Some((path.clone(), PathKind::File)),
    );
    assert_eq!((s.program.as_str(), dir), ("vi", None));
    assert_eq!(s.args, ["-a", "/tmp/a b"]);
    let (s, dir) = process_open_url(
        shell("sh"), Some("/w".into()), shell("vi"), Some((path, PathKind::Dir)),
    );
    assert_eq!((s.program.as_str(), dir.as_deref()), ("sh", Some("/tmp/a b")));
    let (s, dir) = process_open_url(shell("sh"), Some("/w".into()), shell("vi"), None);
    assert_eq!((s.program.as_str(), dir.as_deref()), ("sh", Some("/w")));
}

#[test]
fn a_close_is_asked_for_by_what_closes() {
    let mut c = ConfirmClose::default();
    assert!(!c.is_active() && c.text().is_none());
    for (pending, question) in [
        (PendingClose::Tab(2), "close this tab?"),
        (PendingClose::Current, "close this tab?"),
        (PendingClose::Window, "close this window?"),
    ] {
        c.set_pending(Some(pending));
        assert!(c.is_active());
        assert_eq!(c.pending(), Some(pending));
        let (head, answers) = c.text().unwrap();
        assert_eq!((head.as_str(), answers.as_str()), (question, "  yes (y)  /  no (n)"));
    }
    c.set_pending(None);
    assert_eq!(c.pending(), None);
}
