use rio_sessions::modes::{ModeTracker, Modes, MAX_TITLE};

#[test]
fn tracks_alt_screen_and_cursor() {
    let mut t = ModeTracker::new();
    t.advance(b"hello \x1b[?1049h\x1b[?25lvim content");
    assert_eq!(t.modes.alt_screen, Some(1049));
    assert!(t.modes.cursor_hidden);
    let p = t.replay_prefix();
    let s = String::from_utf8_lossy(&p);
    assert!(s.contains("\x1b[?1049h"));
    assert!(s.contains("\x1b[?25l"));
    assert!(s.starts_with("\x1b[!p"));

    t.advance(b"\x1b[?1049l\x1b[?25h");
    assert_eq!(t.modes.alt_screen, None);
    assert!(!t.modes.cursor_hidden);
}

#[test]
fn tracks_multi_param_and_mouse() {
    let mut t = ModeTracker::new();
    t.advance(b"\x1b[?1000;1006h");
    assert_eq!(t.modes.mouse, vec![1000, 1006]);
    t.advance(b"\x1b[?1000l");
    assert_eq!(t.modes.mouse, vec![1006]);
}

#[test]
fn tracks_title_and_keypad_and_reset() {
    let mut t = ModeTracker::new();
    t.advance(b"\x1b]2;my title\x07\x1b=");
    assert_eq!(t.modes.title.as_deref(), Some("my title"));
    assert!(t.modes.app_keypad);
    t.advance(b"\x1b]0;other\x1b\\");
    assert_eq!(t.modes.title.as_deref(), Some("other"));
    t.advance(b"\x1bc");
    assert_eq!(t.modes, Modes::default());
}

#[test]
fn split_sequences_across_feeds() {
    let mut t = ModeTracker::new();
    t.advance(b"\x1b[?10");
    assert!(t.in_sequence());
    t.advance(b"49h");
    assert!(!t.in_sequence());
    assert_eq!(t.modes.alt_screen, Some(1049));
}

#[test]
fn title_truncation_never_panics_on_utf8_boundary() {
    let mut t = ModeTracker::new();
    let mut osc = b"\x1b]2;".to_vec();
    osc.extend(std::iter::repeat_n(b'a', MAX_TITLE - 1));
    osc.extend("€".as_bytes());
    osc.push(0x07);
    t.advance(&osc);
    let title = t.modes.title.as_deref().unwrap();
    assert!(title.len() <= MAX_TITLE + 3);
    assert!(title.starts_with("aaa"));
}

#[test]
fn dcs_apc_bodies_count_as_in_sequence() {
    let mut t = ModeTracker::new();
    t.advance(b"\x1bPq#0;2;0;0;0#0~~@@vv@@~~@@~~$");
    assert!(t.in_sequence(), "mid-sixel must be in_sequence");
    t.advance(b"\x1b\\");
    assert!(!t.in_sequence());
    t.advance(b"\x1b_Ga=T\x1b\\after");
    assert!(!t.in_sequence());
    // A byte inside the body must not be parsed as a mode toggle;
    // only ST (ESC \\) terminates cleanly.
    let mut t2 = ModeTracker::new();
    t2.advance(b"\x1bPq[?1049h\x1b\\");
    assert_eq!(t2.modes.alt_screen, None);
}

#[test]
fn esc_inside_string_terminates_and_restarts() {
    // ESC (not ST) inside a DCS ends the string and begins a fresh
    // escape — the following CSI must be parsed, matching xterm.
    let mut t = ModeTracker::new();
    t.advance(b"\x1bPq\x1b[?1049h");
    assert_eq!(t.modes.alt_screen, Some(1049));
    assert!(!t.in_sequence());
}

#[test]
fn esc_terminates_osc_then_new_sequence_parsed() {
    let mut t = ModeTracker::new();
    t.advance(b"\x1b]2;mytitle\x1b[?1049h");
    assert_eq!(t.modes.title.as_deref(), Some("mytitle"));
    assert_eq!(t.modes.alt_screen, Some(1049));
}

#[test]
fn can_sub_abort_csi() {
    let mut t = ModeTracker::new();
    // CAN mid-CSI aborts: the 1049 must not register.
    t.advance(b"\x1b[?10\x1849h");
    assert_eq!(t.modes.alt_screen, None);
    // (OSC CAN behavior — dispatch, not abort — is covered by
    // osc_can_dispatches_title_like_rio, matching rio's parser.)
}

#[test]
fn autowrap_off_survives_replay() {
    let mut t = ModeTracker::new();
    t.advance(b"\x1b[?7l");
    assert!(t.modes.autowrap_off);
    let p = t.replay_prefix();
    assert!(String::from_utf8_lossy(&p).contains("\x1b[?7l"));
    t.advance(b"\x1b[?7h");
    assert!(!t.modes.autowrap_off);
}

#[test]
fn mode_1048_is_not_an_alt_screen_switch() {
    let mut t = ModeTracker::new();
    t.advance(b"\x1b[?1049h\x1b[?1048h");
    assert_eq!(t.modes.alt_screen, Some(1049));
    t.advance(b"\x1b[?1048l");
    assert_eq!(t.modes.alt_screen, Some(1049));
}

#[test]
fn ordinary_csi_ignored() {
    let mut t = ModeTracker::new();
    t.advance(b"\x1b[31mred\x1b[0m\x1b[2J\x1b[H");
    assert_eq!(t.modes, Modes::default());
}

#[test]
fn csi_param_does_not_overflow_u16() {
    // Must not panic (overflow-checked builds) nor wrap to a false
    // mode number: a huge private-mode param is clamped.
    let mut t = ModeTracker::new();
    t.advance(b"\x1b[?999992h");
    assert!(!t.modes.app_cursor_keys);
    t.advance(b"\x1b[?655358l");
    assert!(!t.modes.autowrap_off);
}

#[test]
fn charset_designator_does_not_corrupt_modes() {
    let mut t = ModeTracker::new();
    t.advance(b"\x1b[?1049h"); // enter alt screen
    assert_eq!(t.modes.alt_screen, Some(1049));
    // ESC ( c : charset designate 'c' — must NOT hit the ESC c
    // full-reset arm and wipe alt_screen.
    t.advance(b"\x1b(c");
    assert_eq!(t.modes.alt_screen, Some(1049));
    // ESC ( [ ?25l : the '[' after an intermediate is a charset
    // final, NOT a CSI introducer — cursor_hidden stays false and
    // the ?25l is printed as text, not parsed.
    let mut t2 = ModeTracker::new();
    t2.advance(b"\x1b([?25l");
    assert!(!t2.modes.cursor_hidden);
}

#[test]
fn replay_prefix_resets_unset_modes() {
    // A tracker with nothing set must still emit the OFF direction
    // for every mode, so a dirty-grid reattach can't inherit a
    // stale alt-screen / mouse / paste mode from the client's
    // prior life.
    let t = ModeTracker::new();
    let p = String::from_utf8_lossy(&t.replay_prefix()).into_owned();
    assert!(p.contains("\x1b[?1049l"), "alt-screen off missing");
    assert!(p.contains("\x1b[?1000l"), "mouse 1000 off missing");
    assert!(p.contains("\x1b[?2004l"), "bracketed-paste off missing");
    assert!(p.contains("\x1b[?1004l"), "focus off missing");
    assert!(p.contains("\x1b>"), "keypad-normal missing");
}

#[test]
fn osc_can_dispatches_title_like_rio() {
    // rio's parser dispatches the OSC on CAN/SUB; the tracker must
    // match so the replayed title equals what the client showed.
    let mut t = ModeTracker::new();
    t.advance(b"\x1b]2;hello\x18");
    assert_eq!(t.modes.title.as_deref(), Some("hello"));
}

#[test]
fn the_prefix_of_a_fresh_tracker() {
    let t = ModeTracker::new();
    let p = String::from_utf8(t.replay_prefix()).unwrap();
    assert!(p.starts_with("\x1b[!p"));
    assert!(!p.contains("\x1b[?1049h"));
    assert!(!p.contains("\x1b]"));
}

#[test]
fn a_prefix_restores_what_it_was_made_from() {
    let mut t = ModeTracker::new();
    t.advance(b"\x1b[?1h\x1b[?25l\x1b[?7l\x1b[?1049h\x1b[?1002;1006h\x1b[?1004h\x1b[?2004h\x1b=");
    t.advance(b"\x1b]2;title\x07");
    let mut back = ModeTracker::new();
    back.advance(b"\x1b[?1000h\x1b[?47h");
    back.advance(&t.replay_prefix());
    assert_eq!(back.modes, t.modes);
    assert!(!back.in_sequence());
}

#[test]
fn a_title_keeps_at_most_its_limit() {
    let mut t = ModeTracker::new();
    t.advance(b"\x1b]0;");
    t.advance(&vec![b'x'; MAX_TITLE * 2]);
    t.advance(b"\x07");
    assert_eq!(t.modes().title.as_deref().map(str::len), Some(MAX_TITLE));
}

#[test]
fn a_title_that_is_cut_again_costs_no_other_mode() {
    let mut t = ModeTracker::new();
    let mut bytes = b"\x1b]2;".to_vec();
    bytes.extend_from_slice(&[0xff; MAX_TITLE]);
    bytes.extend_from_slice(b"\x07\x1b[?1049h\x1b[?1006;1000h\x1b[?2004h\x1b=");
    t.advance(&bytes);
    let mut fresh = ModeTracker::new();
    fresh.advance(&t.replay_prefix());
    assert!(!fresh.in_sequence());
    assert_ne!(fresh.modes().title, t.modes().title);
    let told = Modes { title: t.modes().title.clone(), ..fresh.modes().clone() };
    assert_eq!(&told, t.modes());
    assert_eq!(fresh.modes().mouse, vec![1006, 1000]);
}

#[test]
fn mouse_modes_are_a_list_without_repeats() {
    let mut t = ModeTracker::new();
    for mode in [1002, 1006, 1002, 1000] {
        t.apply_private_mode(mode, true);
    }
    assert_eq!(t.modes().mouse, vec![1002, 1006, 1000]);
    t.apply_private_mode(1006, false);
    t.apply_private_mode(1006, false);
    assert_eq!(t.modes().mouse, vec![1002, 1000]);
    let before = t.modes().clone();
    t.apply_private_mode(1048, true);
    t.apply_private_mode(9, true);
    assert_eq!(t.modes(), &before);
    t.apply_private_mode(1049, true);
    t.apply_private_mode(7, false);
    assert_eq!((t.modes().alt_screen, t.modes().autowrap_off), (Some(1049), true));
    assert_eq!(t.modes().mouse, before.mouse);
}
