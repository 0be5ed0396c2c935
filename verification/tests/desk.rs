use rio_sessions::application::{Application, Effect, OpenWindow, QuitSettings};
use rio_sessions::config::SessionRestore;
use rio_sessions::context::{attached_backend, spawned_backend, AttachTarget, PaneBackend};
use rio_sessions::desk::{Action, Desk, DeskSettings, Seat, Theme, Timer};
use rio_sessions::dispatch::{Fired, UserEvent};
use rio_sessions::events::{
    coprocess_reply, opens_window, resave, startup, url_place, watch, window_has_running_process,
    ChildState, QueryStatus, RenderSettings, Resave, StartCause, Startup, UrlPlace, Watch,
    COPROCESS_SECS,
};
use rio_sessions::input::{
    commit_is_bracketed, dropped_text, offered, skip_window_event, Axis, ButtonFacts, ClickState,
    Hover, Ime, Motion, MouseButton, Overlays, Pointer, PressTarget, WindowEvent, WindowEventKind,
};

fn desk() -> Desk {
    let mut app = Application::new(QuitSettings {
        restore: SessionRestore::Always,
        confirm_before_quit: false,
        platform_confirms_close: false,
        outlives_windows: false,
    });
    app.open_window(OpenWindow { id: 1, session_name: None, ephemeral: false });
    app.open_window(OpenWindow { id: 2, session_name: None, ephemeral: false });
    Desk {
        app,
        settings: DeskSettings {
            render: RenderSettings {
                event_based: true,
                game: false,
                disable_unfocused_render: false,
                disable_occluded_render: true,
            },
            hide_cursor_when_typing: false,
            copy_on_select: true,
            audio_bell: true,
            open_config_with_split: false,
            force_theme: None,
        },
    }
}

fn seat() -> Option<Seat> {
    Some(Seat::new())
}

fn tell(event: UserEvent) -> Vec<Action> {
    desk().user_event(1, seat(), event).actions
}

fn tell_gone(event: UserEvent) -> Vec<Action> {
    let r = desk().user_event(9, None, event);
    assert!(r.seat.is_none());
    r.actions
}

fn once(timer: Timer, route: usize, millis: u64) -> Action {
    Action::Schedule { timer, route, millis, repeat: false }
}

#[test]
fn a_window_that_is_shown_again_is_drawn_once() {
    let mut d = desk();
    let hidden = d.window_event(1, Seat::new(), WindowEvent::Occluded(true)).seat.unwrap();
    assert!(d.user_event(1, Some(hidden), UserEvent::Render).actions.is_empty());
    let back = d.window_event(1, hidden, WindowEvent::Occluded(false)).seat.unwrap();
    assert!(back.flags.needs_render_after_occlusion);
    let r = d.user_event(1, Some(back), UserEvent::Render);
    assert_eq!(r.actions, [Action::Redraw]);
    assert!(!r.seat.unwrap().flags.needs_render_after_occlusion);
}

#[test]
fn a_frame_waits_for_its_time() {
    let event = |wait, scheduled| UserEvent::RenderRoute { route: 4, scrollbar: false, wait, scheduled };
    let dirty = Action::MarkDirty { route: 4 };
    assert_eq!(tell(event(None, false)), [dirty, Action::Redraw]);
    assert_eq!(tell(event(Some(8), false)), [dirty, once(Timer::RenderRoute, 4, 8)]);
    assert_eq!(tell(event(Some(8), true)), [dirty]);
    assert!(tell_gone(event(None, false)).is_empty());

    let mut d = desk();
    d.settings.render.disable_unfocused_render = true;
    let scrollbar = UserEvent::RenderRoute { route: 4, scrollbar: true, wait: None, scheduled: false };
    assert_eq!(d.user_event(1, seat(), scrollbar).actions, [Action::Redraw]);
    assert!(d.user_event(1, seat(), event(None, false)).actions.is_empty());
    d.settings.render.event_based = false;
    assert!(d.user_event(1, seat(), event(None, false)).actions.is_empty());
}

#[test]
fn damage_and_images_are_drawn() {
    let damaged = |known| UserEvent::TerminalDamaged { route: 3, known };
    assert_eq!(tell(damaged(true)), [Action::MarkDirty { route: 3 }, Action::Redraw]);
    assert!(tell(damaged(false)).is_empty());
    assert_eq!(
        tell(UserEvent::UpdateGraphics { route: 3 }),
        [Action::StoreImages { route: 3 }, Action::MarkDirty { route: 3 }, Action::Redraw]
    );
    assert!(tell_gone(UserEvent::UpdateGraphics { route: 3 }).is_empty());
}

#[test]
fn a_mistake_in_the_settings_costs_none_that_work() {
    let event = |settings_read, rules_read, fonts_changed| UserEvent::UpdateConfig {
        settings_read,
        rules_read,
        fonts_changed,
    };
    assert_eq!(tell(event(false, true, true)), [Action::ReportSettingsError]);
    assert_eq!(
        tell(event(true, true, true)),
        [Action::LoadFonts, Action::ApplySettings { fonts: true, keep_rules: false }]
    );
    assert_eq!(
        tell(event(true, false, false)),
        [Action::ApplySettings { fonts: false, keep_rules: true }, Action::ReportRulesError]
    );
    let prepare = |scheduled| UserEvent::PrepareUpdateConfig { scheduled };
    assert_eq!(tell_gone(prepare(false)), [once(Timer::UpdateConfig, 0, 250)]);
    assert!(tell(prepare(true)).is_empty());
}

#[test]
fn a_save_is_shown_for_a_while() {
    let mut d = desk();
    let r = d.user_event(1, seat(), UserEvent::SaveSession { explicit: true });
    assert!(matches!(&r.effects[0], Effect::Mirror { windows, .. } if windows == &[1, 2]));
    assert_eq!(r.actions, [Action::Redraw, once(Timer::ClearSessionNotice, 0, 1500)]);
    let r = d.user_event(1, seat(), UserEvent::SaveSessionAs(Some("w".into())));
    assert_eq!(r.effects.len(), 2);
    assert_eq!(d.app.session_of(1).as_deref(), Some("w"));
    assert_eq!(tell(UserEvent::ClearSessionNotice), [Action::HideNotice, Action::Redraw]);
}

#[test]
fn windows_close_and_the_program_quits() {
    let mut d = desk();
    let r = d.user_event(1, seat(), UserEvent::CloseWindow { busy: true });
    assert!(matches!(r.effects[0], Effect::Pin { window: 1, .. }));
    assert_eq!(d.app.window_count(), 1);
    let r = d.user_event(2, seat(), UserEvent::CloseTerminal { route: 5, last: true, emptied: false });
    assert!(matches!(r.effects[0], Effect::DropRoute { route: 5 }));
    assert_eq!(d.app.window_count(), 0);
    let mut d = desk();
    let r = d.user_event(1, seat(), UserEvent::CloseWindowConfirmed(false));
    assert!(matches!(r.effects[0], Effect::Decline { .. }));
    for event in [UserEvent::Quit, UserEvent::Exit, UserEvent::QuitConfirmed] {
        let r = desk().user_event(1, seat(), event);
        assert!(matches!(r.effects.last(), Some(Effect::ExitProcess)));
    }
    let mut d = desk();
    d.app.configure(QuitSettings {
        restore: SessionRestore::Prompt,
        confirm_before_quit: false,
        platform_confirms_close: false,
        outlives_windows: false,
    });
    let r = d.user_event(1, seat(), UserEvent::QuitSaveAnswered(false));
    assert!(r.effects.iter().any(|e| matches!(e, Effect::Decline { .. })));
    let r = desk().window_event(1, Seat::new(), WindowEvent::CloseRequested);
    assert!(matches!(r.effects[0], Effect::Save { .. }));
}

#[test]
fn a_glyph_is_looked_up_in_both_places() {
    for (in_glossary, in_system, status) in [
        (true, true, QueryStatus::Both),
        (true, false, QueryStatus::Glossary),
        (false, true, QueryStatus::System),
        (false, false, QueryStatus::Free),
    ] {
        assert_eq!(
            tell(UserEvent::GlyphProtocolQuery { route: 2, in_glossary, in_system }),
            [Action::AnswerGlyph { route: 2, status }]
        );
    }
    assert_eq!(
        tell(UserEvent::GlyphProtocolInstalled { route: 2 }),
        [Action::InstallGlyphs { route: 2 }]
    );
}

#[test]
fn rules_that_fired_are_carried_out() {
    let fired = |action| UserEvent::TriggerFired { route: 2, action };
    assert_eq!(tell_gone(fired(Fired::Notify { urgency: 2 })), [Action::Notify { urgency: 2 }]);
    assert_eq!(tell(fired(Fired::Run)), [Action::RunProgram]);
    assert!(tell_gone(fired(Fired::Run)).is_empty());
    assert_eq!(tell(fired(Fired::SendText)), [Action::SendBytes { route: 2 }]);
    assert_eq!(
        tell_gone(fired(Fired::Coprocess)),
        [Action::StartCoprocess { route: 2, secs: 10 }]
    );
}

#[test]
fn the_clipboard_is_open_to_the_window_in_front() {
    let mut d = desk();
    let front = d.window_event(1, Seat::new(), WindowEvent::Focused(true));
    assert_eq!(front.actions, [Action::Redraw, Action::FocusChanged(true)]);
    let load = UserEvent::ClipboardLoad { route: 6 };
    assert!(tell(UserEvent::ClipboardLoad { route: 6 }).is_empty());
    assert!(tell(UserEvent::ClipboardStore).is_empty());
    assert_eq!(d.user_event(1, front.seat, load).actions, [Action::SendClipboard { route: 6 }]);
    assert_eq!(
        d.user_event(1, front.seat, UserEvent::ClipboardStore).actions,
        [Action::StoreClipboard]
    );
}

#[test]
fn timers_are_set_once() {
    let render = |scheduled| UserEvent::PrepareRender { millis: 5, current: 3, scheduled };
    assert_eq!(tell(render(false)), [once(Timer::Render, 3, 5)]);
    assert!(tell(render(true)).is_empty());
    assert!(tell_gone(render(false)).is_empty());
    assert_eq!(
        tell_gone(UserEvent::PrepareRenderOnRoute { millis: 5, route: 3, scheduled: false }),
        [once(Timer::ScheduledRenderRoute, 3, 5)]
    );
    assert_eq!(
        tell_gone(UserEvent::BlinkCursor { millis: 5, route: 3, scheduled: false }),
        [once(Timer::CursorBlinking, 3, 5)]
    );
    assert_eq!(
        tell_gone(UserEvent::CloseButtonArmed { timeout: 3000 }),
        [once(Timer::DisarmCloseButton, 0, 3100)]
    );
    assert_eq!(
        tell(UserEvent::CloseButtonArmed { timeout: u64::MAX }),
        [once(Timer::DisarmCloseButton, 0, u64::MAX)]
    );
}

#[test]
fn small_events_do_one_thing() {
    let two = [Action::SetTitle, Action::SetSubtitle];
    assert_eq!(tell(UserEvent::Title), [Action::SetTitle]);
    assert_eq!(tell(UserEvent::TitleWithSubtitle), two);
    assert_eq!(tell_gone(UserEvent::UpdateTitles), [Action::UpdateTitles]);
    assert_eq!(tell(UserEvent::Bell), [Action::RingBell]);
    assert_eq!(tell(UserEvent::DesktopNotification), [Action::Notify { urgency: 1 }]);
    assert_eq!(tell(UserEvent::ReportToAssistant), [Action::ReportError]);
    assert_eq!(tell(UserEvent::RestoreSessionByName), [Action::RestoreNamed]);
    assert_eq!(
        tell(UserEvent::RemotePanesListed),
        [Action::ShowRemotePanes, Action::RedrawOverlay]
    );
    assert_eq!(
        tell(UserEvent::DisarmCloseButton { changed: true }),
        [Action::MarkCurrentDirty, Action::Redraw]
    );
    assert!(tell(UserEvent::DisarmCloseButton { changed: false }).is_empty());
    assert_eq!(tell(UserEvent::CursorBlinkingChange), [Action::Redraw]);
    assert_eq!(
        tell(UserEvent::CursorBlinkingChangeOnRoute { route: 1, current: 1 }),
        [Action::DamageCursor, Action::Redraw]
    );
    assert!(tell(UserEvent::CursorBlinkingChangeOnRoute { route: 1, current: 2 }).is_empty());
    assert!(tell(UserEvent::ProgressReport { island: false }).is_empty());
    assert_eq!(
        tell(UserEvent::ProgressReport { island: true }),
        [Action::SetProgress, Action::Redraw]
    );
    assert_eq!(
        tell(UserEvent::SelectionScrollTick),
        [Action::ScrollSelection, Action::Redraw]
    );
    assert_eq!(tell(UserEvent::MouseCursorDirty), [Action::ResetMouse]);
    assert_eq!(tell(UserEvent::Scroll), [Action::ScrollDisplay]);
    assert_eq!(tell(UserEvent::PtyWrite { route: 3 }), [Action::SendBytes { route: 3 }]);
    assert_eq!(
        tell(UserEvent::TextAreaSizeRequest { route: 3 }),
        [Action::SendTextAreaSize { route: 3 }]
    );
    let opened = desk().user_event(9, None, UserEvent::CreateWindow);
    assert!(matches!(&opened.effects[..], [Effect::OpenWindow { session: None }]));
    assert_eq!(tell(UserEvent::CreateNativeTab), [Action::CreateNativeTab]);
    assert_eq!(tell(UserEvent::CreateConfigEditor), [Action::OpenConfigWindow]);
    assert_eq!(
        tell(UserEvent::ResumeSessionAnswered { pending: true }),
        [Action::RestoreFullSession]
    );
    assert!(tell(UserEvent::ResumeSessionAnswered { pending: false }).is_empty());
    assert_eq!(tell(UserEvent::SelectNativeTab), [Action::SelectNativeTab]);
    assert_eq!(tell_gone(UserEvent::Hide), [Action::HideApplication]);
    assert_eq!(tell_gone(UserEvent::HideOtherApplications), [Action::HideOthers]);
    assert_eq!(tell(UserEvent::Minimize(true)), [Action::SetMinimized(true)]);
    assert_eq!(
        tell(UserEvent::ToggleFullScreen { fullscreen: true }),
        [Action::SetFullscreen(false)]
    );
    assert_eq!(
        tell(UserEvent::ToggleMaximized { maximized: false }),
        [Action::SetMaximized(true)]
    );
}

#[test]
fn colors_are_told_and_changed() {
    let ask = |changed, cursor| UserEvent::ColorRequest { route: 2, changed, cursor };
    assert_eq!(tell(ask(true, true)), [Action::SendColor { route: 2, own: true }]);
    assert_eq!(tell(ask(false, false)), [Action::SendColor { route: 2, own: false }]);
    assert!(tell(ask(false, true)).is_empty());
    let change = |background| UserEvent::ColorChange { route: 2, background };
    assert_eq!(tell(change(true)), [Action::SetBackground { route: 2 }]);
    assert!(tell(change(false)).is_empty());
}

#[test]
fn a_theme_is_toggled_and_stays() {
    let mut d = desk();
    let toggle = |window| UserEvent::ToggleAppearanceTheme { window };
    let r = d.user_event(1, seat(), toggle(None));
    assert_eq!(r.actions, [Action::ApplyTheme(Theme::Light)]);
    let r = d.window_event(1, Seat::new(), WindowEvent::ThemeChanged(Theme::Dark));
    assert!(r.actions.is_empty());
    let r = d.user_event(1, seat(), toggle(Some(Theme::Dark)));
    assert_eq!(r.actions, [Action::ApplyTheme(Theme::Dark)]);
    let r = desk().window_event(1, Seat::new(), WindowEvent::ThemeChanged(Theme::Dark));
    assert_eq!(r.actions, [Action::ApplyTheme(Theme::Dark), Action::Redraw]);
}

#[test]
fn a_start_restores_what_it_is_told_to() {
    assert!(opens_window(StartCause::Init, 3));
    assert!(opens_window(StartCause::CreateWindow, 3));
    assert!(opens_window(StartCause::Reopen, 0));
    assert!(!opens_window(StartCause::Reopen, 1));
    assert!(!opens_window(StartCause::Other, 0));
    assert_eq!(startup(true, SessionRestore::Never, false), Startup::Named);
    assert_eq!(startup(false, SessionRestore::Always, true), Startup::Restore);
    assert_eq!(startup(false, SessionRestore::Prompt, true), Startup::Ask);
    assert_eq!(startup(false, SessionRestore::Never, true), Startup::Fresh);
    assert_eq!(startup(false, SessionRestore::Always, false), Startup::Fresh);
    assert_eq!(resave(true, true, false), Resave::All);
    assert_eq!(resave(false, true, true), Resave::All);
    assert_eq!(resave(true, false, false), Resave::One);
    assert_eq!(resave(false, true, false), Resave::Nothing);
}

#[test]
fn a_window_is_busy_with_what_runs_in_it() {
    let daemon = || spawned_backend("a".into(), "/s".into(), None);
    let far = attached_backend(&AttachTarget::Ssh { host: "h".into(), pane_id: "a".into() }, None);
    assert!(!window_has_running_process(&vec![(PaneBackend::Local, true), (daemon(), false)]));
    assert!(window_has_running_process(&vec![(PaneBackend::Local, true), (daemon(), true)]));
    assert!(window_has_running_process(&vec![(far, false)]));
}

const OPEN: Overlays =
    Overlays { terminal: true, confirm_quit: false, session_prompt: false, confirm_close: false };

fn facts() -> ButtonFacts {
    ButtonFacts {
        overlays: OPEN,
        bar: false,
        quick: true,
        tab_dropped: false,
        dragging_scrollbar: false,
        resizing: false,
        reports: false,
        route: 4,
    }
}

fn press(seat: Seat, button: MouseButton, facts: ButtonFacts) -> (Seat, Vec<Action>) {
    let event = WindowEvent::MouseInput { button, pressed: true, facts };
    let r = desk().window_event(1, seat, event);
    (r.seat.unwrap(), r.actions)
}

fn release(seat: Seat, button: MouseButton, facts: ButtonFacts) -> (Seat, Vec<Action>) {
    let event = WindowEvent::MouseInput { button, pressed: false, facts };
    let r = desk().window_event(1, seat, event);
    (r.seat.unwrap(), r.actions)
}

#[test]
fn clicks_are_counted() {
    let mut s = Seat::new();
    let mut seen = Vec::new();
    for _ in 0..4 {
        s = press(s, MouseButton::Left, facts()).0;
        seen.push(s.clicks.state);
    }
    let click = ClickState::Click;
    assert_eq!(seen, [click, ClickState::DoubleClick, ClickState::TripleClick, click]);
    s = press(s, MouseButton::Right, facts()).0;
    assert_eq!(s.clicks.state, click);
    s = press(s, MouseButton::Right, ButtonFacts { quick: false, ..facts() }).0;
    assert_eq!(s.clicks.state, click);
    assert!(s.held.left && s.held.right && !s.held.middle);
}

/// Offers a press to one target after the other; the last action that is not an
/// offer ends it.
fn follow(button: MouseButton, takes: Option<PressTarget>, reports: bool) -> Vec<Action> {
    let (mut s, mut actions) = press(Seat::new(), button, facts());
    let mut done = Vec::new();
    loop {
        let mut next = None;
        for action in actions {
            match action {
                Action::Offer(target) => next = Some(target),
                other => done.push(other),
            }
        }
        let Some(target) = next else { return done };
        let r = offered(s, button, target, takes == Some(target), false, reports);
        s = r.seat.unwrap();
        actions = r.actions;
    }
}

#[test]
fn a_press_goes_where_it_belongs() {
    let first = Action::TakeChromePress;
    let left = MouseButton::Left;
    assert_eq!(follow(left, Some(PressTarget::Border), false), [first]);
    for target in [
        PressTarget::Assistant,
        PressTarget::Palette,
        PressTarget::Search,
        PressTarget::Island,
        PressTarget::Scrollbar,
    ] {
        assert_eq!(follow(left, Some(target), false), [first, Action::Redraw]);
    }
    assert_eq!(
        follow(left, Some(PressTarget::Panel), true),
        [first, Action::Redraw, Action::Bindings]
    );
    assert_eq!(
        follow(left, None, true),
        [
            first,
            Action::ReportButton { code: 0, pressed: true },
            Action::Bindings,
            Action::Bindings
        ]
    );
    assert_eq!(follow(MouseButton::Back, None, true), [first]);
    assert_eq!(follow(left, Some(PressTarget::Hyperlink), false), [first]);
    assert_eq!(
        follow(left, None, false),
        [first, Action::LeftClick, Action::Redraw, Action::Bindings]
    );
    assert_eq!(
        follow(MouseButton::Middle, None, false),
        [first, Action::Redraw, Action::Bindings]
    );
    let r = offered(Seat::new(), left, PressTarget::Island, false, true, false);
    assert_eq!(r.actions, [Action::DragWindow, Action::Offer(PressTarget::Scrollbar)]);
}

#[test]
fn a_release_ends_what_a_press_began() {
    let stop = Action::Unschedule { timer: Timer::SelectionScrolling, route: 4 };
    let left = MouseButton::Left;
    let s = press(Seat::new(), left, facts()).0;
    let (after, actions) = release(s, left, facts());
    assert!(!after.held.left);
    assert_eq!(
        actions,
        [stop, Action::FollowHintOrCopy { hint: true, primary: true, clipboard: true }]
    );
    let f = ButtonFacts { tab_dropped: true, ..facts() };
    assert_eq!(release(s, left, f).1, [stop, Action::Redraw]);
    let f = ButtonFacts { dragging_scrollbar: true, ..facts() };
    assert_eq!(release(s, left, f).1, [stop, Action::ReleaseScrollbar, Action::Redraw]);
    let f = ButtonFacts { resizing: true, ..facts() };
    assert_eq!(
        release(s, left, f).1,
        [stop, Action::ReleaseBorder, Action::Point(Pointer::Default)]
    );
    let f = ButtonFacts { reports: true, ..facts() };
    assert_eq!(
        release(s, MouseButton::Middle, f).1,
        [Action::ReportButton { code: 1, pressed: false }]
    );
    assert!(release(s, MouseButton::Other(9), f).1.is_empty());
    assert!(release(s, MouseButton::Middle, facts()).1.is_empty());
}

#[test]
fn a_question_keeps_the_mouse() {
    for overlays in [
        Overlays { terminal: false, ..OPEN },
        Overlays { confirm_quit: true, ..OPEN },
        Overlays { session_prompt: true, ..OPEN },
        Overlays { confirm_close: true, ..OPEN },
    ] {
        let f = ButtonFacts { overlays, ..facts() };
        let (s, actions) = press(Seat::new(), MouseButton::Left, f);
        assert_eq!(actions, [Action::TakeChromePress]);
        assert!(!s.held.left);
        assert_eq!(release(s, MouseButton::Left, f).1, [Action::CancelDrags]);
        let m = Motion { overlays, ..motion() };
        assert_eq!(moved(Seat::new(), m).1, [Action::Point(Pointer::Default)]);
        let wheel = WindowEvent::MouseWheel { overlays };
        assert!(desk().window_event(1, Seat::new(), wheel).actions.is_empty());
    }
}

fn motion() -> Motion {
    Motion {
        overlays: OPEN,
        assistant: None,
        palette: None,
        search: false,
        dragging_tab: false,
        close_hover: false,
        over_island: false,
        dragging_scrollbar: false,
        resizing: None,
        border: None,
        over_scrollbar: false,
        has_selection: false,
        scroll_zone: false,
        scroll_scheduled: false,
        route: 4,
        cell: true,
        side: false,
        inside: false,
        on_hint: false,
        has_link: false,
        shift: false,
        mouse_mode: false,
        drag_reports: false,
        all_motion: false,
    }
}

fn moved(seat: Seat, m: Motion) -> (Seat, Vec<Action>) {
    let r = desk().window_event(1, seat, WindowEvent::CursorMoved(m));
    (r.seat.unwrap(), r.actions)
}

#[test]
fn the_pointer_shows_what_is_under_it() {
    let point = |m| moved(Seat::new(), m).1;
    let plain = Action::Point(Pointer::Default);
    assert_eq!(point(motion()), [Action::Point(Pointer::Text)]);
    assert_eq!(point(Motion { mouse_mode: true, ..motion() }), [plain]);
    assert_eq!(
        point(Motion { on_hint: true, ..motion() }),
        [Action::Point(Pointer::Hand), Action::RequestRender]
    );
    assert_eq!(
        point(Motion { has_link: true, ..motion() }),
        [Action::Point(Pointer::Text), Action::ClearHyperlink, Action::RequestRender]
    );
    let hover = Hover { changed: true, on_button: true };
    assert_eq!(
        point(Motion { assistant: Some(hover), ..motion() }),
        [Action::RedrawOverlay, Action::Point(Pointer::Hand)]
    );
    assert_eq!(point(Motion { palette: Some(false), ..motion() }), [plain]);
    assert_eq!(
        point(Motion { search: true, over_island: true, close_hover: true, ..motion() }),
        [Action::MarkCurrentDirty, Action::Redraw, Action::Redraw, plain]
    );
    assert_eq!(point(Motion { over_scrollbar: true, ..motion() }), [plain]);
    assert_eq!(
        point(Motion { dragging_scrollbar: true, ..motion() }),
        [Action::DragScrollbar, plain, Action::Redraw]
    );
    assert!(point(Motion { cell: false, ..motion() }).is_empty());
}

#[test]
fn a_border_is_moved_and_left() {
    let m = Motion { border: Some(Axis::Vertical), cell: false, ..motion() };
    let (s, actions) = moved(Seat::new(), m);
    assert!(s.on_border);
    assert_eq!(actions, [Action::Point(Pointer::Column)]);
    let (s, actions) = moved(s, Motion { cell: false, ..motion() });
    assert!(!s.on_border);
    assert_eq!(actions, [Action::Point(Pointer::Text)]);
    let m = Motion { resizing: Some(Axis::Horizontal), ..motion() };
    assert_eq!(
        moved(s, m).1,
        [
            Action::ResizeBorder,
            Action::Point(Pointer::Row),
            Action::RequestRender,
            Action::Redraw
        ]
    );
}

#[test]
fn a_drag_selects_or_is_reported() {
    let mut s = Seat::new();
    s.held.left = true;
    assert_eq!(moved(s, motion()).1, [Action::UpdateSelection, Action::RequestRender]);
    let m = Motion { has_selection: true, scroll_zone: true, ..motion() };
    assert_eq!(
        moved(s, m).1[0],
        Action::Schedule {
            timer: Timer::SelectionScrolling,
            route: 4,
            millis: 15,
            repeat: true
        }
    );
    assert_eq!(
        moved(s, Motion { dragging_tab: true, ..motion() }).1,
        [Action::DragTab, Action::Point(Pointer::Default), Action::Redraw]
    );
    let m = Motion { mouse_mode: true, drag_reports: true, all_motion: true, ..motion() };
    let code = |left, middle, right| {
        let mut s = Seat::new();
        (s.held.left, s.held.middle, s.held.right) = (left, middle, right);
        moved(s, m).1[1..].to_vec()
    };
    let report = |code| vec![Action::ReportButton { code, pressed: true }];
    assert_eq!(code(true, false, false), report(32));
    assert_eq!(code(false, true, false), report(33));
    assert_eq!(code(false, false, true), report(34));
    assert_eq!(code(false, false, false), report(35));
    let m = Motion { all_motion: false, ..m };
    assert_eq!(moved(Seat::new(), m).1, [Action::Point(Pointer::Default)]);
}

#[test]
fn what_a_window_tells() {
    let act = |event| desk().window_event(1, Seat::new(), event).actions;
    assert_eq!(act(WindowEvent::ModifiersChanged), [Action::SetModifiers]);
    assert_eq!(act(WindowEvent::CursorLeft { changed: true }), [Action::Redraw]);
    assert!(act(WindowEvent::CursorLeft { changed: false }).is_empty());
    assert_eq!(
        act(WindowEvent::MouseWheel { overlays: OPEN }),
        [Action::ScrollWheel, Action::Redraw]
    );
    let key = |waits, released, terminal| WindowEvent::KeyboardInput {
        waits,
        released,
        terminal,
        route: 4,
    };
    assert_eq!(
        act(key(false, false, true)),
        [Action::NoteTyping, Action::ProcessKey, Action::Redraw]
    );
    assert_eq!(
        act(key(true, true, false)),
        [Action::Unschedule { timer: Timer::Render, route: 4 }]
    );
    assert!(act(key(true, true, true)).is_empty());
    assert_eq!(act(WindowEvent::Touch), [Action::Touch]);
    assert_eq!(act(WindowEvent::Focused(false)), [Action::FocusChanged(false)]);
    assert_eq!(
        act(WindowEvent::DroppedFile { assistant: false }),
        [Action::Paste { bracketed: true }]
    );
    assert!(act(WindowEvent::DroppedFile { assistant: true }).is_empty());
    assert!(act(WindowEvent::Resized { width: 0, height: 5 }).is_empty());
    assert_eq!(
        act(WindowEvent::Resized { width: 5, height: 5 }),
        [Action::Resize, Action::Redraw]
    );
    assert_eq!(act(WindowEvent::ScaleFactorChanged), [Action::SetScale, Action::Redraw]);
    assert_eq!(
        act(WindowEvent::RedrawRequested { terminal: true, dirty: false }),
        [Action::BeginRender, Action::RenderTerminal, Action::Poll(false)]
    );
    let mut d = desk();
    d.settings.render.game = true;
    d.settings.hide_cursor_when_typing = true;
    assert_eq!(
        d.window_event(1, Seat::new(), WindowEvent::RedrawRequested { terminal: false, dirty: false })
            .actions,
        [Action::BeginRender, Action::RenderWelcome, Action::Redraw, Action::Poll(true)]
    );
    assert_eq!(
        d.window_event(1, Seat::new(), key(false, true, true)).actions.last(),
        Some(&Action::ShowPointer(false))
    );
    assert_eq!(
        d.window_event(1, Seat::new(), WindowEvent::CursorMoved(motion())).actions[0],
        Action::ShowPointer(true)
    );
}

#[test]
fn composed_text_is_pasted() {
    let ime = |assistant, what| {
        desk().window_event(1, Seat::new(), WindowEvent::Ime { assistant, what }).actions
    };
    let several = commit_is_bracketed("\u{e9}a");
    assert!(several && !commit_is_bracketed("\u{e9}"));
    assert_eq!(ime(false, Ime::Commit { several }), [Action::Paste { bracketed: true }]);
    assert!(ime(true, Ime::Commit { several }).is_empty());
    assert_eq!(
        ime(false, Ime::Preedit { empty: false, changed: true }),
        [Action::SetPreedit(true), Action::Redraw]
    );
    assert!(ime(false, Ime::Preedit { empty: true, changed: false }).is_empty());
    assert_eq!(ime(false, Ime::Enabled), [Action::SetIme(true)]);
    assert_eq!(ime(false, Ime::Disabled), [Action::SetIme(false)]);
    assert_eq!(dropped_text("/tmp/a b"), "/tmp/a b ");
}

#[test]
fn events_that_mean_nothing_are_skipped() {
    assert!(!skip_window_event(WindowEventKind::Other));
    assert!(!skip_window_event(WindowEventKind::KeyboardInput { is_synthetic: false }));
    for kind in [
        WindowEventKind::KeyboardInput { is_synthetic: true },
        WindowEventKind::ActivationTokenDone,
        WindowEventKind::DoubleTapGesture,
        WindowEventKind::TouchpadPressure,
        WindowEventKind::RotationGesture,
        WindowEventKind::CursorEntered,
        WindowEventKind::PinchGesture,
        WindowEventKind::AxisMotion,
        WindowEventKind::PanGesture,
        WindowEventKind::HoveredFileCancelled,
        WindowEventKind::Destroyed,
        WindowEventKind::HoveredFile,
        WindowEventKind::Moved,
    ] {
        assert!(skip_window_event(kind));
    }
}

#[test]
fn urls_open_in_windows_or_tabs() {
    assert_eq!(url_place(false, &vec![true]), UrlPlace::Windows);
    assert_eq!(url_place(true, &vec![]), UrlPlace::Nowhere);
    assert_eq!(url_place(true, &vec![false, true, true]), UrlPlace::TabsOf(1));
    assert_eq!(url_place(true, &vec![false, false]), UrlPlace::TabsOf(0));
}

#[test]
fn a_new_window_joins_the_session() {
    let mut d = desk();
    d.app.bind_session_name(1, Some("work".into()));
    let opened = d.user_event(1, seat(), UserEvent::CreateWindow);
    assert!(matches!(
        &opened.effects[..],
        [Effect::OpenWindow { session: Some(name) }] if name == "work"
    ));
}

#[test]
fn a_coprocess_has_its_time() {
    let allowed = COPROCESS_SECS * 1000;
    assert_eq!(watch(ChildState::Running, 9_999, allowed), Watch::Wait);
    assert_eq!(watch(ChildState::Running, 10_000, allowed), Watch::Kill);
    assert_eq!(watch(ChildState::Ended, 99_999, allowed), Watch::Collect);
    assert_eq!(watch(ChildState::Unknown, 0, allowed), Watch::GiveUp);
    assert_eq!(coprocess_reply(b""), None);
    assert_eq!(coprocess_reply(b"ls\xff\n").as_deref(), Some("ls\u{fffd}\n"));
}
