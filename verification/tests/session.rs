use rio_sessions::close::{
    close_disposition, sanitize_name, session_names, write_on_quit, CloseDisposition,
};
use rio_sessions::config::SessionRestore;
use rio_sessions::context::{attached_backend, spawned_backend, AttachTarget, PaneBackend};
use rio_sessions::kept::{
    among, assemble, check_for, pane_ids, probe_targets, saved_session_kill_targets, DaemonCheck,
};
use rio_sessions::rebuild::{active_slot, rebuild_steps, step_is_due, Step};
use rio_sessions::saved::SavedWindows;
use rio_sessions::session::{
    capture_pane, file_is_readable, injects_scrollback, temp_path, LayoutNode, PaneState,
    SessionState, SplitDir, TabState, WindowState, MAX_FILE_BYTES, MAX_PANE_SCROLLBACK_BYTES,
    MAX_WINDOW_PANES, SESSION_VERSION,
};

fn window(panes: &[&str]) -> WindowState {
    let tabs = panes
        .iter()
        .map(|id| TabState {
            custom_title: None,
            layout: LayoutNode::Leaf(PaneState {
                cwd: None,
                title: None,
                is_active: true,
                scrollback: String::new(),
                pane_id: Some((*id).to_string()),
                socket: None,
                host: None,
            }),
        })
        .collect();
    WindowState {
        tabs,
        active_tab: 0,
        size: (0, 0),
        position: None,
    }
}

fn ids(w: &WindowState) -> Vec<String> {
    w.tabs
        .iter()
        .filter_map(|t| match &t.layout {
            LayoutNode::Leaf(p) => p.pane_id.clone(),
            _ => None,
        })
        .collect()
}

// Two windows closed one at a time restore as two, not more: the
// regression where re-saving a window whose tab set had changed
// between saves left duplicate windows in the file (a 1-tab snapshot
// AND a 2-tab snapshot of the same window). Keying by WindowId, the
// second save of window 1 replaces the first instead of appending.
#[test]
fn per_window_close_does_not_duplicate() {
    let mut sw: SavedWindows = SavedWindows::new();
    let path = b"unused-in-accumulate";

    // Close window 1 while both are open: window 1 has one tab so far,
    // window 2 has two.
    let first = sw.accumulate(
        path,
        vec![(1u64, window(&["a"])), (2u64, window(&["b", "c"]))],
        Some(1),
    );
    assert_eq!(first.len(), 2);

    // Close window 2; window 1 meanwhile grew a second tab. Only
    // window 2 is captured now, but the accumulator still holds
    // window 1 — and the fresh capture of window 1 (if any) must
    // replace, never duplicate.
    let second = sw.accumulate(
        path,
        vec![(1u64, window(&["a", "d"])), (2u64, window(&["b", "c"]))],
        Some(2),
    );
    assert_eq!(second.len(), 2, "same two windows, no duplicates");

    // Window 2 is preferred (first), window 1 carries its latest tabs.
    assert_eq!(ids(&second[0]), vec!["b", "c"]);
    let w1 = second.iter().find(|w| ids(w) == vec!["a", "d"]);
    assert!(w1.is_some(), "window 1 present with its grown tab set");
}

// Autosave after a window closed: the save only captures the
// still-open window, but the union must keep the closed one — this
// is what makes autosave-on-change safe for multi-window sessions.
#[test]
fn accumulate_keeps_earlier_closed_windows() {
    let mut sw: SavedWindows = SavedWindows::new();
    let path = b"unused";
    sw.accumulate(
        path,
        vec![(1u64, window(&["a"])), (2u64, window(&["b"]))],
        Some(2),
    );
    // Window 2 is gone; a tab change in window 1 triggers a save
    // that sees only window 1.
    let out = sw.accumulate(path, vec![(1u64, window(&["a", "c"]))], Some(1));
    assert_eq!(out.len(), 2, "closed window 2 still recorded");
    assert_eq!(ids(&out[0]), vec!["a", "c"]);
    assert!(out.iter().any(|w| ids(w) == vec!["b"]));
}

#[test]
fn replace_drops_earlier_closed_windows() {
    let mut sw: SavedWindows = SavedWindows::new();
    let path = b"unused";
    sw.accumulate(path, vec![(1u64, window(&["a"]))], Some(1));
    // Mirror snapshot with only window 2 open forgets window 1 and
    // reports the drop, so the write escalates to a daemon probe.
    let (out, dropped) =
        sw.replace(path, vec![(2u64, window(&["b"]))], Some(2), true);
    assert_eq!(out.len(), 1);
    assert_eq!(ids(&out[0]), vec!["b"]);
    assert!(dropped, "window 1 dropping out must be reported");

    // Steady state: same window again, nothing dropped.
    let (out, dropped) =
        sw.replace(path, vec![(2u64, window(&["b"]))], Some(2), true);
    assert_eq!(out.len(), 1);
    assert!(!dropped, "no drop when the open set is unchanged");
}

/// A pinned window (closed while its shell still ran a program)
/// survives mirror saves; an explicit save-now clears the pin.
#[test]
fn pinned_window_survives_mirror_saves() {
    let mut sw: SavedWindows = SavedWindows::new();
    let path = b"unused";
    sw.accumulate(path, vec![(1u64, window(&["a"]))], Some(1));
    sw.pin(path, 1);

    let (out, _) = sw.replace(path, vec![(2u64, window(&["b"]))], Some(2), true);
    assert_eq!(out.len(), 2, "pinned window 1 must survive the mirror");
    assert!(out.iter().any(|w| ids(w) == vec!["a"]));

    // Explicit save-now: mirror exactly, dropping the pin for good.
    let (out, _) = sw.replace(path, vec![(2u64, window(&["b"]))], Some(2), false);
    assert_eq!(out.len(), 1);
    assert_eq!(ids(&out[0]), vec!["b"]);
    let (out, _) = sw.replace(path, vec![(2u64, window(&["b"]))], Some(2), true);
    assert_eq!(out.len(), 1, "pin stays cleared after the explicit save");
}

// A declined session must not come back through the accumulator: a
// later save for the same path starts from scratch.
#[test]
fn forget_clears_accumulated_windows() {
    let mut sw: SavedWindows = SavedWindows::new();
    let path = b"unused";
    sw.accumulate(path, vec![(1u64, window(&["a"]))], Some(1));
    sw.forget(path);
    let out = sw.accumulate(path, vec![(2u64, window(&["b"]))], Some(2));
    assert_eq!(out.len(), 1);
    assert_eq!(ids(&out[0]), vec!["b"]);
}

#[test]
fn table() {
    // (named, mode) -> disposition. Locks the confirmed close-save
    // table: named always persists (prompt in disable/prompt, silent
    // in always); unnamed follows the mode (nothing/prompt/silent).
    let d = close_disposition;
    assert_eq!(d(true, SessionRestore::Never), CloseDisposition::Prompt);
    assert_eq!(d(true, SessionRestore::Prompt), CloseDisposition::Prompt);
    assert_eq!(d(true, SessionRestore::Always), CloseDisposition::Save);
    assert_eq!(d(false, SessionRestore::Never), CloseDisposition::Nothing);
    assert_eq!(d(false, SessionRestore::Prompt), CloseDisposition::Prompt);
    assert_eq!(d(false, SessionRestore::Always), CloseDisposition::Save);
}

#[test]
fn quit_write_gate() {
    // Prompt-disposition sessions write only with the quit prompt's
    // consent; in particular a named file under Never/Prompt is
    // never overwritten by a silent quit/exit tail.
    let w = write_on_quit;
    assert!(!w(true, SessionRestore::Never, false));
    assert!(w(true, SessionRestore::Never, true));
    assert!(!w(true, SessionRestore::Prompt, false));
    assert!(w(true, SessionRestore::Prompt, true));
    assert!(w(true, SessionRestore::Always, false));
    assert!(!w(false, SessionRestore::Prompt, false));
    assert!(w(false, SessionRestore::Prompt, true));
    assert!(w(false, SessionRestore::Always, false));
    // Nothing writes nothing, consent or not.
    assert!(!w(false, SessionRestore::Never, false));
    assert!(!w(false, SessionRestore::Never, true));
}

fn leaf() -> LayoutNode {
    LayoutNode::Leaf(PaneState {
        cwd: None,
        title: None,
        is_active: true,
        scrollback: String::new(),
        pane_id: None,
        socket: None,
        host: None,
    })
}

fn state_with_tabs(tabs: Vec<TabState>) -> SessionState {
    SessionState {
        version: SESSION_VERSION,
        windows: vec![WindowState {
            tabs,
            active_tab: 0,
            size: (0, 0),
            position: None,
        }],
    }
}

#[test]
fn save_load_round_trip() {
    let state = state_with_tabs(vec![TabState {
        custom_title: None,
        layout: LayoutNode::Split {
            direction: SplitDir::Horizontal,
            children: vec![(0.25f32.to_bits(), leaf()), (0.75f32.to_bits(), leaf())],
        },
    }]);
    let loaded = SessionState::accept(state).expect("valid file loads");
    assert_eq!(loaded.windows[0].tabs[0].layout.leaf_count(), 2);
}

#[test]
fn load_rejects_bad_weights() {
    for weight in [-1.0f32, 0.0, f32::INFINITY, f32::NAN] {
        let state = state_with_tabs(vec![TabState {
            custom_title: None,
            layout: LayoutNode::Split {
                direction: SplitDir::Horizontal,
                children: vec![(weight.to_bits(), leaf()), (1.0f32.to_bits(), leaf())],
            },
        }]);
        assert!(
            SessionState::accept(state).is_none(),
            "weight {weight} must reject the file"
        );
    }
}

#[test]
fn load_rejects_pane_flood() {
    let tabs: Vec<TabState> = (0..=MAX_WINDOW_PANES)
        .map(|_| TabState {
            custom_title: None,
            layout: leaf(),
        })
        .collect();
    let state = state_with_tabs(tabs);
    assert!(SessionState::accept(state).is_none());
}

fn pane(socket: Option<&str>, host: Option<&str>) -> PaneState {
    PaneState {
        cwd: None,
        title: None,
        is_active: true,
        scrollback: String::new(),
        pane_id: Some("p".into()),
        socket: socket.map(str::to_string),
        host: host.map(str::to_string),
    }
}

#[test]
fn spares_live_windows_and_remote_panes() {
    let state = SessionState {
        version: SESSION_VERSION,
        windows: vec![WindowState {
            tabs: vec![
                TabState {
                    custom_title: None,
                    layout: LayoutNode::Split {
                        direction: SplitDir::Horizontal,
                        children: vec![
                            (1.0f32.to_bits(), LayoutNode::Leaf(pane(Some("/s/dead"), None))),
                            (1.0f32.to_bits(), LayoutNode::Leaf(pane(Some("/s/live"), None))),
                        ],
                    },
                },
                TabState {
                    custom_title: None,
                    layout: LayoutNode::Leaf(pane(Some("/s/remote"), Some("host"))),
                },
                TabState {
                    custom_title: None,
                    layout: LayoutNode::Leaf(pane(None, None)),
                },
            ],
            active_tab: 0,
            size: (0, 0),
            position: None,
        }],
    };
    let spare = vec!["/s/live".to_string()];
    // Only the local, unspared socket is a kill target: the spared
    // one belongs to a still-open window, the remote one to another
    // machine, and a socketless pane has nothing to kill.
    assert_eq!(saved_session_kill_targets(&state, &spare), vec!["/s/dead"]);
}

fn some(text: &str) -> Option<String> {
    Some(text.to_string())
}

#[test]
fn a_saved_pane_finds_its_daemon() {
    let target = |pane_id, socket, host| {
        PaneState { pane_id, ..pane(socket, host) }.attach_target()
    };
    assert!(matches!(
        target(some("a"), Some("/s"), None),
        Some(AttachTarget::Unix { pane_id, socket }) if pane_id == "a" && socket == "/s"
    ));
    assert!(matches!(
        target(some("a"), Some("/s"), Some("h")),
        Some(AttachTarget::Ssh { host, pane_id }) if host == "h" && pane_id == "a"
    ));
    assert!(target(some("a"), None, None).is_none());
    assert!(target(None, Some("/s"), None).is_none());
    let mut p = pane(Some("/s"), None);
    p.cwd = some("/w");
    assert_eq!(p.spawn().cwd.as_deref(), Some("/w"));
    assert!(p.spawn().attach.is_some());
}

#[test]
fn a_pane_is_captured_with_the_directory_that_is_known() {
    let backend = spawned_backend("ab".into(), "/s".into(), some("/reported"));
    let capture = |probed: Option<&str>, told: Option<&str>| {
        capture_pane(
            &backend,
            probed.map(str::to_string),
            told.map(str::to_string),
            "title".into(),
            true,
            "text".into(),
        )
    };
    assert_eq!(capture(Some("/probed"), Some("/told")).cwd.as_deref(), Some("/probed"));
    assert_eq!(capture(None, Some("/told")).cwd.as_deref(), Some("/told"));
    let p = capture(None, None);
    assert_eq!(p.cwd.as_deref(), Some("/reported"));
    assert_eq!((p.pane_id.as_deref(), p.socket.as_deref()), (Some("ab"), Some("/s")));
    assert!(p.host.is_none() && p.is_active);
    assert!(injects_scrollback(&p, &backend));
    assert!(injects_scrollback(&p, &PaneBackend::Local));
    let replayed = attached_backend(
        &AttachTarget::Unix { pane_id: "ab".into(), socket: "/s".into() },
        None,
    );
    assert!(!injects_scrollback(&p, &replayed));
}

#[test]
fn a_session_file_has_its_limits() {
    assert!(file_is_readable(MAX_FILE_BYTES));
    assert!(!file_is_readable(MAX_FILE_BYTES + 1));
    assert_eq!(temp_path(b"/s/session.json", 42), b"/s/session.json.tmp.42");
    assert_eq!(temp_path(b"/\xff/s.json", 0), b"/\xff/s.json.tmp.0");
    let mut state = state_with_tabs(vec![TabState { custom_title: None, layout: leaf() }]);
    state.version = SESSION_VERSION + 1;
    assert!(SessionState::accept(state).is_none());
}

#[test]
fn scrollback_keeps_its_end() {
    let mut p = pane(None, None);
    p.scrollback = "\u{e9}".repeat(MAX_PANE_SCROLLBACK_BYTES / 2) + "end";
    let tab = TabState { custom_title: None, layout: LayoutNode::Leaf(p) };
    let loaded = SessionState::accept(state_with_tabs(vec![tab])).unwrap();
    let LayoutNode::Leaf(p) = &loaded.windows[0].tabs[0].layout else { panic!("not a leaf") };
    assert_eq!(p.scrollback.len(), MAX_PANE_SCROLLBACK_BYTES - 1);
    assert!(p.scrollback.starts_with('\u{e9}') && p.scrollback.ends_with("end"));
}

fn split(children: Vec<LayoutNode>) -> LayoutNode {
    LayoutNode::Split {
        direction: SplitDir::Vertical,
        children: children.into_iter().map(|c| (1.0f32.to_bits(), c)).collect(),
    }
}

fn named_leaf(id: &str, active: bool) -> LayoutNode {
    let mut p = pane(Some(&format!("/s/{id}")), None);
    p.pane_id = some(id);
    p.is_active = active;
    LayoutNode::Leaf(p)
}

#[test]
fn a_layout_that_is_empty_is_refused() {
    assert!(!split(Vec::new()).well_formed());
    assert!(!split(vec![leaf(), split(Vec::new())]).well_formed());
    let node = split(vec![split(vec![named_leaf("x", false)]), leaf()]);
    assert!(node.well_formed());
    assert_eq!(node.first_leaf().pane_id.as_deref(), Some("x"));
    assert_eq!(node.duplicate().leaf_count(), 2);
}

fn tab(layout: LayoutNode) -> TabState {
    TabState { custom_title: None, layout }
}

fn saved_window(tabs: Vec<TabState>) -> WindowState {
    WindowState { tabs, active_tab: 0, size: (0, 0), position: None }
}

#[test]
fn live_daemons_are_carried_over() {
    let old = || SessionState {
        version: SESSION_VERSION,
        windows: vec![saved_window(vec![
            tab(split(vec![named_leaf("a", true), named_leaf("b", false)])),
            tab(split(vec![named_leaf("c", true), named_leaf("dead", false)])),
            tab(named_leaf("open", true)),
        ])],
    };
    let now = || vec![saved_window(vec![tab(named_leaf("open", true))])];
    assert_eq!(pane_ids(&now()), ["open"]);
    assert_eq!(probe_targets(&old(), &now()), ["/s/a", "/s/b", "/s/c", "/s/dead"]);
    let live: Vec<String> = vec!["/s/a".into(), "/s/b".into(), "/s/c".into()];

    let state = assemble(now(), Some(old()), DaemonCheck::Probe, &live).unwrap();
    assert_eq!(state.version, SESSION_VERSION);
    assert_eq!(pane_ids(&state.windows), ["open", "a", "b", "c"]);
    assert_eq!(state.windows[0].tabs.len(), 3);
    assert_eq!(state.windows[0].tabs[1].layout.leaf_count(), 2);

    let state = assemble(now(), Some(old()), DaemonCheck::AssumeAlive, &Vec::new()).unwrap();
    assert_eq!(pane_ids(&state.windows), ["open", "a", "b", "c", "dead"]);

    assert!(assemble(Vec::new(), Some(old()), DaemonCheck::AssumeAlive, &live).is_none());
    assert!(among(&live, "/s/a") && !among(&live, "/s"));
}

#[test]
fn a_name_is_made_safe_for_a_file() {
    assert_eq!(sanitize_name("  my work/../x  "), "my-work-..-x");
    assert_eq!(sanitize_name("a_b-C9"), "a_b-C9");
    assert_eq!(sanitize_name(" \t"), "");
}

#[test]
fn saved_sessions_are_listed_in_order() {
    let files: Vec<String> =
        ["b.json", "a.json", "notes.txt", "c.json.tmp.1"].map(str::to_string).to_vec();
    assert_eq!(session_names(&files), ["a", "b"]);
}

#[test]
fn a_layout_is_rebuilt_step_by_step() {
    let node = split(vec![
        named_leaf("a", false),
        split(vec![named_leaf("b", true), named_leaf("c", false)]),
    ]);
    let steps = rebuild_steps(&node).unwrap();
    let id = |p: &PaneState| p.pane_id.clone().unwrap();
    let seen: Vec<String> = steps
        .iter()
        .map(|s| match s {
            Step::Select { slot } => format!("select {slot}"),
            Step::Split { base, slot, pane, .. } => format!("split {base} {slot} {}", id(pane)),
            Step::Paint { slot, pane } => format!("paint {slot} {}", id(pane)),
        })
        .collect();
    assert_eq!(
        seen,
        [
            "split 0 1 b", "select 0", "paint 0 a", "select 1", "split 1 2 c", "select 1",
            "paint 1 b", "select 2", "paint 2 c",
        ]
    );
    assert_eq!(active_slot(&steps, &vec![true, true, true]), Some(1));
    assert_eq!(active_slot(&steps, &vec![true, false, false]), None);
    assert!(step_is_due(&steps[2], &vec![true, false]));
    assert!(!step_is_due(&steps[4], &vec![true, false]));
    assert!(!step_is_due(&steps[8], &vec![true]));
}

#[test]
fn a_window_that_dropped_out_has_its_daemons_probed() {
    assert_eq!(check_for(true, DaemonCheck::AssumeAlive), DaemonCheck::Probe);
    assert_eq!(check_for(false, DaemonCheck::AssumeAlive), DaemonCheck::AssumeAlive);
    assert_eq!(check_for(false, DaemonCheck::Probe), DaemonCheck::Probe);
}
