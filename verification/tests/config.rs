use rio_sessions::config::{Session, SessionRestore};

#[test]
fn defaults_are_off_and_v1() {
    let s = Session::default();
    assert_eq!(s.restore, SessionRestore::Never);
    assert!(!s.persistent);
    assert!(!s.restore.enabled());
    assert!(!s.uses_daemons());
}

#[test]
fn two_level_parse() {
    let s = Session {
        restore: SessionRestore::named("prompt").unwrap(),
        persistent: true,
        ..Session::default()
    };
    assert_eq!(s.restore, SessionRestore::Prompt);
    assert!(s.persistent);
    assert!(s.uses_daemons());

    // v1: restore on, persistent off -> no daemons.
    let s = Session { restore: SessionRestore::named("always").unwrap(), ..Session::default() };
    assert_eq!(s.restore, SessionRestore::Always);
    assert!(!s.persistent);
    assert!(!s.uses_daemons());

    // disable ignores persistent entirely.
    let s = Session {
        restore: SessionRestore::named("disable").unwrap(),
        persistent: true,
        ..Session::default()
    };
    assert!(!s.uses_daemons());
}

#[test]
fn legacy_aliases_parse() {
    // The pre-rename value `restore = "never"` still maps to
    // Never; `persistent` stays a plain bool as before.
    let s = Session {
        restore: SessionRestore::named("never").unwrap(),
        persistent: false,
        ..Session::default()
    };
    assert_eq!(s.restore, SessionRestore::Never);
    assert!(!s.persistent);
}
