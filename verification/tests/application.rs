use rio_sessions::application::{Application, Effect, OpenWindow, QuitSettings};
use rio_sessions::config::SessionRestore;
use rio_sessions::kept::DaemonCheck;

fn settings(restore: SessionRestore) -> QuitSettings {
    QuitSettings {
        restore,
        confirm_before_quit: false,
        platform_confirms_close: false,
        outlives_windows: false,
    }
}

fn app(restore: SessionRestore, windows: &[(u64, Option<&str>)]) -> Application {
    let mut app = Application::new(settings(restore));
    for (id, name) in windows {
        app.open_window(OpenWindow {
            id: *id,
            session_name: name.map(str::to_string),
            ephemeral: false,
        });
    }
    app
}

/// The effects in short.
fn short(effects: Vec<Effect>) -> Vec<String> {
    effects
        .into_iter()
        .map(|e| match e {
            Effect::Save { slot, preferred, windows } => {
                format!("save {:?} {:?} {:?}", slot.as_deref(), preferred, windows)
            }
            Effect::Mirror { slot, preferred, windows, check, keep_pinned } => {
                let probe = matches!(check, DaemonCheck::Probe);
                format!(
                    "mirror {:?} {preferred} {windows:?} probe={probe} pins={keep_pinned}",
                    slot.as_deref()
                )
            }
            Effect::Pin { slot, window } => format!("pin {:?} {window}", slot.as_deref()),
            Effect::Decline { slot, dying, staying } => {
                format!("decline {:?} {dying:?} {staying:?}", slot.as_deref())
            }
            other => format!("{other:?}"),
        })
        .collect()
}

#[test]
fn a_closed_window_is_saved_and_kept() {
    let mut a = app(SessionRestore::Always, &[(1, None), (2, None)]);
    assert_eq!(
        short(a.close_requested(1)),
        [
            "save None Some(1) [1, 2]",
            "DetachOnClose { window: 1 }",
            "RemoveWindow { window: 1 }",
            "ClearQuitDetaching",
        ]
    );
    assert_eq!(a.window_count(), 1);
}

#[test]
fn a_last_window_ends_the_program() {
    let mut a = app(SessionRestore::Never, &[(1, None)]);
    let all = short(a.close_requested(1));
    assert!(all.contains(&"RemoveWindow { window: 1 }".to_string()));
    assert_eq!(all.last().unwrap(), "ExitLoop");
    assert!(!all.iter().any(|e| e.starts_with("save")));
}

#[test]
fn a_prompt_is_answered() {
    let mut a = app(SessionRestore::Prompt, &[(1, None), (2, None)]);
    assert_eq!(short(a.close_requested(1)), ["PromptSaveOnExit { window: 1 }"]);
    assert_eq!(a.window_count(), 2);
    let yes = short(a.close_window_confirmed(1, true));
    assert_eq!(yes[0], "save None Some(1) [1, 2]");
    assert!(yes.contains(&"DetachOnClose { window: 1 }".to_string()));

    let mut a = app(SessionRestore::Prompt, &[(1, None), (2, None)]);
    a.close_requested(1);
    let no = short(a.close_window_confirmed(1, false));
    assert_eq!(no[0], "decline None [1] [2]");
    assert_eq!(a.window_count(), 1);
}

#[test]
fn a_busy_window_is_pinned() {
    let mut a = app(SessionRestore::Always, &[(1, Some("w")), (2, Some("w"))]);
    let all = short(a.close_window(1, true));
    assert_eq!(all[0], "pin Some(\"w\") 1");
    assert_eq!(all[1], "save Some(\"w\") Some(1) [1, 2]");
    assert!(all.contains(&"DetachOnClose { window: 1 }".to_string()));
    let mut a = app(SessionRestore::Always, &[(1, Some("w")), (2, Some("w"))]);
    let all = short(a.close_window(1, false));
    assert!(!all.iter().any(|e| e.starts_with("pin") || e.starts_with("Detach")));
}

#[test]
fn a_shell_that_ends_takes_its_window_or_its_tab() {
    let mut a = app(SessionRestore::Always, &[(1, None), (2, None)]);
    assert_eq!(
        short(a.close_terminal(1, 7, false, false)),
        ["DropRoute { route: 7 }", "TabClosed { window: 1 }"]
    );
    let all = short(a.close_terminal(1, 7, true, false));
    assert_eq!(all[0], "DropRoute { route: 7 }");
    assert_eq!(all[1], "save None Some(1) [1, 2]");
    assert_eq!(all[2], "Unschedule { route: 7 }");
    assert_eq!(a.window_count(), 1);
    let all = short(a.close_terminal(2, 8, false, true));
    assert_eq!(all[1], "Unschedule { route: 8 }");
    assert_eq!(a.window_count(), 0);
    assert!(a.close_terminal(9, 8, true, true).is_empty());
}

#[test]
fn a_quit_saves_every_session() {
    let a = app(SessionRestore::Always, &[(1, Some("w")), (2, None), (3, Some("w"))]);
    let all = short(a.quit(2));
    assert!(!a.quit_needs_prompt());
    assert_eq!(all[0], "SetQuitDetaching");
    assert!(all.contains(&"save Some(\"w\") Some(1) [1, 3]".to_string()));
    assert!(all.contains(&"save None Some(2) [2]".to_string()));
    assert_eq!(all.last().unwrap(), "ExitProcess");
}

#[test]
fn a_quit_asks_where_it_must() {
    let a = app(SessionRestore::Prompt, &[(1, None)]);
    assert!(a.quit_needs_prompt());
    assert_eq!(short(a.quit(1)), ["PromptSaveOnQuit { window: 1 }"]);
    let saved = short(a.quit_save_answered(1, true));
    assert!(saved.contains(&"save None Some(1) [1]".to_string()));
    let declined = short(a.quit_save_answered(1, false));
    assert!(declined.iter().any(|e| e.starts_with("decline None [1]")));
    assert!(!declined.iter().any(|e| e.starts_with("save")));

    let mut a = app(SessionRestore::Always, &[(1, None)]);
    a.configure(QuitSettings { confirm_before_quit: true, ..settings(SessionRestore::Always) });
    assert_eq!(short(a.quit(1)), ["ConfirmQuit { window: 1 }"]);
    assert_eq!(short(a.close_requested(1)), ["ConfirmQuit { window: 1 }"]);
    assert_eq!(short(a.quit_confirmed(1)).last().unwrap(), "ExitProcess");
}

#[test]
fn an_exit_saves_only_what_is_saved_silently() {
    let mut a = app(SessionRestore::Prompt, &[(1, None), (2, Some("w"))]);
    assert_eq!(
        short(a.exiting(Some(1))),
        ["SetQuitDetaching", "ClearWindows", "ExitProcess"]
    );
    assert_eq!(a.window_count(), 0);
    let mut a = app(SessionRestore::Always, &[(1, None)]);
    assert!(short(a.exiting(Some(1))).contains(&"save None Some(1) [1]".to_string()));
}

#[test]
fn sessions_are_saved_by_hand_and_by_themselves() {
    let mut a = app(SessionRestore::Always, &[(1, None), (2, Some("w"))]);
    assert_eq!(
        short(a.save_session(1, true)),
        ["mirror None 1 [1] probe=true pins=false", "Notice { window: 1 }"]
    );
    assert_eq!(
        short(a.save_session(2, false)),
        ["mirror Some(\"w\") 2 [2] probe=false pins=true", "Notice { window: 2 }"]
    );
    assert_eq!(
        short(a.save_session_as(1, Some("w".into()))),
        ["mirror Some(\"w\") 1 [1, 2] probe=true pins=false", "Notice { window: 1 }"]
    );
    assert_eq!(a.session_of(1).as_deref(), Some("w"));
    assert_eq!(short(a.save_session_as(1, None)), ["Notice { window: 1 }"]);
}

#[test]
fn windows_are_bound_to_names() {
    let mut a = app(SessionRestore::Never, &[(1, None), (2, Some("b")), (3, Some("a"))]);
    assert_eq!(a.windows_of(&None), [1]);
    assert_eq!(a.windows_of(&Some("b".into())), [2]);
    assert_eq!(a.session_of(9), None);
    a.bind_session_name(1, Some("b".into()));
    let mut names = a.distinct_session_names();
    names.sort();
    assert_eq!(names, ["a", "b"]);
    a.bind_session_name(3, None);
    a.name_unnamed(&"c".to_string());
    assert_eq!(a.session_of(3).as_deref(), Some("c"));
    assert_eq!(a.session_of(2).as_deref(), Some("b"));
}

#[test]
fn tooling_is_not_saved() {
    let mut a = app(SessionRestore::Always, &[(1, None)]);
    a.open_window(OpenWindow { id: 2, session_name: None, ephemeral: true });
    let all = short(a.close_requested(1));
    assert_eq!(all[0], "save None Some(1) [1]");
}
