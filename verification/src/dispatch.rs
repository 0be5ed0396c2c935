//! What the program does on what its terminals, its windows and its timers tell
//! it.
use crate::application::{
    on_close_confirmed, on_close_terminal, on_close_window, on_create_window, on_quit, on_save_as,
    on_save_session, quit_all, quit_now,
};
use crate::desk::{
    acts, acts_on_sessions, one, only_if, push_if, three, two, Action, Desk, DeskSettings, DeskView,
    Reaction, ReactionView, Seat, Theme, Timer,
};
use crate::events::{
    glyph_status, may_draw, muted_by_focus, reload, QueryStatus, Reload, WindowFlags,
    CONFIG_DELAY_MILLIS, COPROCESS_SECS, NOTICE_MILLIS,
};
use crate::pane::opt_text;
use vstd::prelude::*;

verus! {

/// How long past its time a close button stays armed, in milliseconds.
pub const DISARM_SLACK_MILLIS: u64 = 100;

/// What a rule that fired asks for.
#[derive(Clone, Copy, Debug, PartialEq, Eq, Structural)]
pub enum Fired {
    Notify { urgency: u8 },
    Run,
    SendText,
    Coprocess,
}

/// What the program is told, with what only others know of it: whether a timer
/// is set already, whether the window shows a terminal, how things stand
/// outside. What is merely handed on (a text, an image) is not part of it.
#[derive(Debug)]
pub enum UserEvent {
    Render,
    /// `wait` is how long to wait till the next frame.
    RenderRoute { route: usize, scrollbar: bool, wait: Option<u64>, scheduled: bool },
    TerminalDamaged { route: usize, known: bool },
    UpdateGraphics { route: usize },
    PrepareUpdateConfig { scheduled: bool },
    ReportToAssistant,
    UpdateConfig { settings_read: bool, rules_read: bool, fonts_changed: bool },
    SaveSession { explicit: bool },
    /// The name as it is used for a file, none where nothing is left of it.
    SaveSessionAs(Option<String>),
    RestoreSessionByName,
    RemotePanesListed,
    CloseButtonArmed { timeout: u64 },
    DisarmCloseButton { changed: bool },
    ClearSessionNotice,
    Exit,
    Quit,
    QuitConfirmed,
    QuitSaveAnswered(bool),
    GlyphProtocolInstalled { route: usize },
    GlyphProtocolQuery { route: usize, in_glossary: bool, in_system: bool },
    CloseTerminal { route: usize, last: bool, emptied: bool },
    CursorBlinkingChange,
    CursorBlinkingChangeOnRoute { route: usize, current: usize },
    ProgressReport { island: bool },
    SelectionScrollTick,
    Bell,
    DesktopNotification,
    TriggerFired { route: usize, action: Fired },
    PrepareRender { millis: u64, current: usize, scheduled: bool },
    PrepareRenderOnRoute { millis: u64, route: usize, scheduled: bool },
    BlinkCursor { millis: u64, route: usize, scheduled: bool },
    Title,
    TitleWithSubtitle,
    UpdateTitles,
    MouseCursorDirty,
    Scroll,
    ClipboardLoad { route: usize },
    ClipboardStore,
    PtyWrite { route: usize },
    TextAreaSizeRequest { route: usize },
    /// `changed` tells whether the terminal has a color of its own.
    ColorRequest { route: usize, changed: bool, cursor: bool },
    ColorChange { route: usize, background: bool },
    CreateWindow,
    CreateNativeTab,
    CreateConfigEditor,
    CloseWindow { busy: bool },
    /// `pending` tells whether a session waits to be restored.
    ResumeSessionAnswered { pending: bool },
    CloseWindowConfirmed(bool),
    SelectNativeTab,
    Hide,
    HideOtherApplications,
    Minimize(bool),
    ToggleFullScreen { fullscreen: bool },
    ToggleMaximized { maximized: bool },
    ToggleAppearanceTheme { window: Option<Theme> },
}

/// The seat with a window's flags changed.
pub open spec fn with_flags(seat: Seat, flags: WindowFlags) -> Option<Seat> {
    Some(Seat { flags, ..seat })
}

/// The actions where the window is there, else none.
pub open spec fn here(seat: Option<Seat>, actions: Seq<Action>) -> ReactionView {
    acts(
        seat,
        if seat is Some {
            actions
        } else {
            Seq::empty()
        },
    )
}

/// A timer that is set once, unless it is set already.
pub open spec fn timed(scheduled: bool, timer: Timer, route: usize, millis: u64) -> Seq<Action> {
    only_if(!scheduled, Action::Schedule { timer, route, millis, repeat: false })
}

pub open spec fn other(theme: Theme) -> Theme {
    match theme {
        Theme::Light => Theme::Dark,
        Theme::Dark => Theme::Light,
    }
}

/// The theme that a toggle leads to: the other one than is forced, else than the
/// window has, else than the dark one.
pub open spec fn toggled(forced: Option<Theme>, window: Option<Theme>) -> Theme {
    other(
        match forced {
            Some(t) => t,
            None => match window {
                Some(t) => t,
                None => Theme::Dark,
            },
        },
    )
}

/// What is done where a frame of a terminal is asked for.
pub open spec fn on_render_route(
    d: DeskView,
    seat: Seat,
    route: usize,
    scrollbar: bool,
    wait: Option<u64>,
    scheduled: bool,
) -> ReactionView {
    let r = d.settings.render;
    if !r.event_based {
        acts(Some(seat), Seq::empty())
    } else if !may_draw(seat.flags, r) {
        acts(
            Some(seat),
            only_if(muted_by_focus(seat.flags, r) && scrollbar, Action::Redraw),
        )
    } else {
        acts(
            with_flags(seat, WindowFlags { needs_render_after_occlusion: false, ..seat.flags }),
            seq![Action::MarkDirty { route }] + match wait {
                Some(millis) => timed(scheduled, Timer::RenderRoute, route, millis),
                None => seq![Action::Redraw],
            },
        )
    }
}

/// What is done where the settings were read again. A mistake in them costs
/// none that work.
pub open spec fn on_update_config(settings_read: bool, rules_read: bool, fonts: bool) -> Seq<Action> {
    if !settings_read {
        seq![Action::ReportSettingsError]
    } else {
        only_if(fonts, Action::LoadFonts) + seq![
            Action::ApplySettings { fonts, keep_rules: !rules_read },
        ] + only_if(!rules_read, Action::ReportRulesError)
    }
}

/// What is done for a rule that fired.
pub open spec fn on_fired(seat: Option<Seat>, route: usize, action: Fired) -> ReactionView {
    match action {
        Fired::Notify { urgency } => acts(seat, seq![Action::Notify { urgency }]),
        Fired::Run => here(seat, seq![Action::RunProgram]),
        Fired::SendText => here(seat, seq![Action::SendBytes { route }]),
        Fired::Coprocess => acts(
            seat,
            seq![Action::StartCoprocess { route, secs: COPROCESS_SECS }],
        ),
    }
}

/// What is shown where a session was saved.
pub open spec fn notice(open_: bool) -> Seq<Action> {
    if open_ {
        seq![
            Action::Redraw,
            Action::Schedule {
                timer: Timer::ClearSessionNotice,
                route: 0,
                millis: NOTICE_MILLIS,
                repeat: false,
            },
        ]
    } else {
        Seq::empty()
    }
}

/// What the program does on an event for a window, of which it holds `seat`.
/// Where the window is gone it holds none, and does only what concerns no
/// window.
pub open spec fn reacted(d: DeskView, window: u64, seat: Option<Seat>, event: UserEvent) -> (
    DeskView,
    ReactionView,
) {
    match event {
        UserEvent::Render => (
            d,
            match seat {
                Some(s) => if may_draw(s.flags, d.settings.render) {
                    acts(
                        with_flags(
                            s,
                            WindowFlags { needs_render_after_occlusion: false, ..s.flags },
                        ),
                        seq![Action::Redraw],
                    )
                } else {
                    acts(seat, Seq::empty())
                },
                None => acts(seat, Seq::empty()),
            },
        ),
        UserEvent::RenderRoute { route, scrollbar, wait, scheduled } => (
            d,
            match seat {
                Some(s) => on_render_route(d, s, route, scrollbar, wait, scheduled),
                None => acts(seat, Seq::empty()),
            },
        ),
        UserEvent::TerminalDamaged { route, known } => (
            d,
            acts(
                seat,
                match seat {
                    Some(s) => if d.settings.render.event_based && may_draw(
                        s.flags,
                        d.settings.render,
                    ) && known {
                        seq![Action::MarkDirty { route }, Action::Redraw]
                    } else {
                        Seq::empty()
                    },
                    None => Seq::empty(),
                },
            ),
        ),
        UserEvent::UpdateGraphics { route } => (
            d,
            here(
                seat,
                seq![Action::StoreImages { route }, Action::MarkDirty { route }, Action::Redraw],
            ),
        ),
        UserEvent::PrepareUpdateConfig { scheduled } => (
            d,
            acts(seat, timed(scheduled, Timer::UpdateConfig, 0, CONFIG_DELAY_MILLIS)),
        ),
        UserEvent::ReportToAssistant => (d, here(seat, seq![Action::ReportError])),
        UserEvent::UpdateConfig { settings_read, rules_read, fonts_changed } => (
            d,
            acts(seat, on_update_config(settings_read, rules_read, fonts_changed)),
        ),
        UserEvent::SaveSession { explicit } => (
            d,
            acts_on_sessions(
                seat,
                on_save_session(d.app, window, explicit),
                notice(seat is Some),
            ),
        ),
        UserEvent::SaveSessionAs(name) => {
            let (app, effects) = on_save_as(d.app, window, opt_text(name));
            (DeskView { app, ..d }, acts_on_sessions(seat, effects, notice(seat is Some)))
        },
        UserEvent::RestoreSessionByName => (d, here(seat, seq![Action::RestoreNamed])),
        UserEvent::RemotePanesListed => (
            d,
            here(seat, seq![Action::ShowRemotePanes, Action::RedrawOverlay]),
        ),
        UserEvent::CloseButtonArmed { timeout } => (
            d,
            acts(
                seat,
                timed(
                    false,
                    Timer::DisarmCloseButton,
                    0,
                    if timeout + DISARM_SLACK_MILLIS <= u64::MAX {
                        (timeout + DISARM_SLACK_MILLIS) as u64
                    } else {
                        u64::MAX
                    },
                ),
            ),
        ),
        UserEvent::DisarmCloseButton { changed } => (
            d,
            here(
                seat,
                if changed {
                    seq![Action::MarkCurrentDirty, Action::Redraw]
                } else {
                    Seq::empty()
                },
            ),
        ),
        UserEvent::ClearSessionNotice => (
            d,
            here(seat, seq![Action::HideNotice, Action::Redraw]),
        ),
        UserEvent::Exit => (d, acts_on_sessions(seat, on_quit(d.app, window), Seq::empty())),
        UserEvent::Quit => (d, acts_on_sessions(seat, on_quit(d.app, window), Seq::empty())),
        UserEvent::QuitConfirmed => (
            d,
            acts_on_sessions(seat, quit_now(d.app, window), Seq::empty()),
        ),
        UserEvent::QuitSaveAnswered(save) => (
            d,
            acts_on_sessions(seat, quit_all(d.app, Some(window), Some(save)), Seq::empty()),
        ),
        UserEvent::GlyphProtocolInstalled { route } => (
            d,
            here(seat, seq![Action::InstallGlyphs { route }]),
        ),
        UserEvent::GlyphProtocolQuery { route, in_glossary, in_system } => (
            d,
            here(
                seat,
                seq![
                    Action::AnswerGlyph {
                        route,
                        status: if in_glossary && in_system {
                            QueryStatus::Both
                        } else if in_glossary {
                            QueryStatus::Glossary
                        } else if in_system {
                            QueryStatus::System
                        } else {
                            QueryStatus::Free
                        },
                    },
                ],
            ),
        ),
        UserEvent::CloseTerminal { route, last, emptied } => {
            let (app, effects) = on_close_terminal(d.app, window, route, last, emptied);
            (DeskView { app, ..d }, acts_on_sessions(seat, effects, Seq::empty()))
        },
        UserEvent::CursorBlinkingChange => (d, here(seat, seq![Action::Redraw])),
        UserEvent::CursorBlinkingChangeOnRoute { route, current } => (
            d,
            here(
                seat,
                if route == current {
                    seq![Action::DamageCursor, Action::Redraw]
                } else {
                    Seq::empty()
                },
            ),
        ),
        UserEvent::ProgressReport { island } => (
            d,
            here(
                seat,
                if island {
                    seq![Action::SetProgress, Action::Redraw]
                } else {
                    Seq::empty()
                },
            ),
        ),
        UserEvent::SelectionScrollTick => (
            d,
            here(seat, seq![Action::ScrollSelection, Action::Redraw]),
        ),
        UserEvent::Bell => (d, acts(seat, only_if(d.settings.audio_bell, Action::RingBell))),
        UserEvent::DesktopNotification => (d, acts(seat, seq![Action::Notify { urgency: 1 }])),
        UserEvent::TriggerFired { route, action } => (d, on_fired(seat, route, action)),
        UserEvent::PrepareRender { millis, current, scheduled } => (
            d,
            here(seat, timed(scheduled, Timer::Render, current, millis)),
        ),
        UserEvent::PrepareRenderOnRoute { millis, route, scheduled } => (
            d,
            acts(seat, timed(scheduled, Timer::ScheduledRenderRoute, route, millis)),
        ),
        UserEvent::BlinkCursor { millis, route, scheduled } => (
            d,
            acts(seat, timed(scheduled, Timer::CursorBlinking, route, millis)),
        ),
        UserEvent::Title => (d, here(seat, seq![Action::SetTitle])),
        UserEvent::TitleWithSubtitle => (
            d,
            here(seat, seq![Action::SetTitle, Action::SetSubtitle]),
        ),
        UserEvent::UpdateTitles => (d, acts(seat, seq![Action::UpdateTitles])),
        UserEvent::MouseCursorDirty => (d, here(seat, seq![Action::ResetMouse])),
        UserEvent::Scroll => (d, here(seat, seq![Action::ScrollDisplay])),
        UserEvent::ClipboardLoad { route } => (
            d,
            acts(
                seat,
                only_if(
                    seat matches Some(s) && s.flags.is_focused,
                    Action::SendClipboard { route },
                ),
            ),
        ),
        UserEvent::ClipboardStore => (
            d,
            acts(
                seat,
                only_if(seat matches Some(s) && s.flags.is_focused, Action::StoreClipboard),
            ),
        ),
        UserEvent::PtyWrite { route } => (d, here(seat, seq![Action::SendBytes { route }])),
        UserEvent::TextAreaSizeRequest { route } => (
            d,
            here(seat, seq![Action::SendTextAreaSize { route }]),
        ),
        UserEvent::ColorRequest { route, changed, cursor } => (
            d,
            here(
                seat,
                only_if(changed || !cursor, Action::SendColor { route, own: changed }),
            ),
        ),
        UserEvent::ColorChange { route, background } => (
            d,
            here(seat, only_if(background, Action::SetBackground { route })),
        ),
        UserEvent::CreateWindow => (
            d,
            acts_on_sessions(seat, on_create_window(d.app, window), Seq::empty()),
        ),
        UserEvent::CreateNativeTab => (d, here(seat, seq![Action::CreateNativeTab])),
        UserEvent::CreateConfigEditor => (
            d,
            acts(
                seat,
                seq![
                    if d.settings.open_config_with_split {
                        Action::OpenConfigSplit
                    } else {
                        Action::OpenConfigWindow
                    },
                ],
            ),
        ),
        UserEvent::CloseWindow { busy } => {
            let (app, effects) = on_close_window(d.app, window, busy);
            (DeskView { app, ..d }, acts_on_sessions(seat, effects, Seq::empty()))
        },
        UserEvent::ResumeSessionAnswered { pending } => (
            d,
            here(seat, only_if(pending, Action::RestoreFullSession)),
        ),
        UserEvent::CloseWindowConfirmed(save) => {
            let (app, effects) = on_close_confirmed(d.app, window, save);
            (DeskView { app, ..d }, acts_on_sessions(seat, effects, Seq::empty()))
        },
        UserEvent::SelectNativeTab => (d, here(seat, seq![Action::SelectNativeTab])),
        UserEvent::Hide => (d, acts(seat, seq![Action::HideApplication])),
        UserEvent::HideOtherApplications => (d, acts(seat, seq![Action::HideOthers])),
        UserEvent::Minimize(on) => (d, here(seat, seq![Action::SetMinimized(on)])),
        UserEvent::ToggleFullScreen { fullscreen } => (
            d,
            here(seat, seq![Action::SetFullscreen(!fullscreen)]),
        ),
        UserEvent::ToggleMaximized { maximized } => (
            d,
            here(seat, seq![Action::SetMaximized(!maximized)]),
        ),
        UserEvent::ToggleAppearanceTheme { window: theme } => match seat {
            Some(s) => {
                let next = toggled(d.settings.force_theme, theme);
                (
                    DeskView {
                        settings: DeskSettings { force_theme: Some(next), ..d.settings },
                        ..d
                    },
                    acts(seat, seq![Action::ApplyTheme(next)]),
                )
            },
            None => (d, acts(seat, Seq::empty())),
        },
    }
}

fn in_window(seat: Option<Seat>, actions: Vec<Action>) -> (reaction: Reaction)
    ensures
        reaction@ == here(seat, actions@),
{
    if seat.is_some() {
        Reaction::of(seat, actions)
    } else {
        Reaction::quiet(seat)
    }
}

fn none_or(on: bool, action: Action) -> (actions: Vec<Action>)
    ensures
        actions@ == only_if(on, action),
{
    let mut actions: Vec<Action> = Vec::new();
    push_if(&mut actions, on, action);
    assert(actions@ =~= only_if(on, action));
    actions
}

fn set_timer(scheduled: bool, timer: Timer, route: usize, millis: u64) -> (actions: Vec<Action>)
    ensures
        actions@ == timed(scheduled, timer, route, millis),
{
    none_or(!scheduled, Action::Schedule { timer, route, millis, repeat: false })
}

fn update_config(settings_read: bool, rules_read: bool, fonts: bool) -> (actions: Vec<Action>)
    ensures
        actions@ == on_update_config(settings_read, rules_read, fonts),
{
    let keep_rules = match reload(settings_read, rules_read) {
        Reload::Keep => {
            return one(Action::ReportSettingsError);
        },
        Reload::Take => false,
        Reload::TakeButRules => true,
    };
    let mut actions: Vec<Action> = none_or(fonts, Action::LoadFonts);
    push_if(&mut actions, true, Action::ApplySettings { fonts, keep_rules });
    push_if(&mut actions, keep_rules, Action::ReportRulesError);
    actions
}

fn saved_notice(open_: bool) -> (actions: Vec<Action>)
    ensures
        actions@ == notice(open_),
{
    if open_ {
        two(
            Action::Redraw,
            Action::Schedule {
                timer: Timer::ClearSessionNotice,
                route: 0,
                millis: NOTICE_MILLIS,
                repeat: false,
            },
        )
    } else {
        Vec::new()
    }
}

fn render_route(
    settings: &DeskSettings,
    seat: Seat,
    route: usize,
    scrollbar: bool,
    wait: Option<u64>,
    scheduled: bool,
) -> (reaction: Reaction)
    ensures
        forall|d: DeskView|
            d.settings == *settings ==> reaction@ == #[trigger] on_render_route(
                d,
                seat,
                route,
                scrollbar,
                wait,
                scheduled,
            ),
{
    let mut flags = seat.flags;
    let draw = flags.render_route(&settings.render, scrollbar, wait, scheduled);
    let after = Seat { flags, ..seat };
    assert(!draw.mark_dirty ==> after == seat);
    let mut actions: Vec<Action> = none_or(draw.mark_dirty, Action::MarkDirty { route });
    push_if(&mut actions, draw.redraw, Action::Redraw);
    if let Some(millis) = draw.schedule {
        push_if(
            &mut actions,
            true,
            Action::Schedule { timer: Timer::RenderRoute, route, millis, repeat: false },
        );
    }
    let ghost done = actions@;
    let reaction = Reaction::of(Some(after), actions);
    proof {
        assert forall|d: DeskView| d.settings == *settings implies reaction@
            == #[trigger] on_render_route(d, seat, route, scrollbar, wait, scheduled) by {
            let want = on_render_route(d, seat, route, scrollbar, wait, scheduled);
            assert(done =~= want.actions);
            assert(reaction@ =~= want);
        }
    }
    reaction
}

fn fired(seat: Option<Seat>, route: usize, action: Fired) -> (reaction: Reaction)
    ensures
        reaction@ == on_fired(seat, route, action),
{
    match action {
        Fired::Notify { urgency } => Reaction::of(seat, one(Action::Notify { urgency })),
        Fired::Run => in_window(seat, one(Action::RunProgram)),
        Fired::SendText => in_window(seat, one(Action::SendBytes { route })),
        Fired::Coprocess => Reaction::of(
            seat,
            one(Action::StartCoprocess { route, secs: COPROCESS_SECS }),
        ),
    }
}

impl Desk {
    /// Reacts to an event for a window.
    #[verifier::rlimit(40)]
    pub fn user_event(&mut self, window: u64, seat: Option<Seat>, event: UserEvent) -> (reaction:
        Reaction)
        ensures
            (final(self)@, reaction@) == reacted(old(self)@, window, seat, event),
    {
        match event {
            UserEvent::Render => match seat {
                Some(s) => {
                    let mut flags = s.flags;
                    if flags.render(&self.settings.render) {
                        Reaction::of(Some(Seat { flags, ..s }), one(Action::Redraw))
                    } else {
                        Reaction::quiet(seat)
                    }
                },
                None => Reaction::quiet(seat),
            },
            UserEvent::RenderRoute { route, scrollbar, wait, scheduled } => match seat {
                Some(s) => render_route(&self.settings, s, route, scrollbar, wait, scheduled),
                None => Reaction::quiet(seat),
            },
            UserEvent::TerminalDamaged { route, known } => match seat {
                Some(s) => if s.flags.terminal_damaged(&self.settings.render, known) {
                    Reaction::of(seat, two(Action::MarkDirty { route }, Action::Redraw))
                } else {
                    Reaction::quiet(seat)
                },
                None => Reaction::quiet(seat),
            },
            UserEvent::UpdateGraphics { route } => in_window(
                seat,
                three(Action::StoreImages { route }, Action::MarkDirty { route }, Action::Redraw),
            ),
            UserEvent::PrepareUpdateConfig { scheduled } => Reaction::of(
                seat,
                set_timer(scheduled, Timer::UpdateConfig, 0, CONFIG_DELAY_MILLIS),
            ),
            UserEvent::ReportToAssistant => in_window(seat, one(Action::ReportError)),
            UserEvent::UpdateConfig { settings_read, rules_read, fonts_changed } => Reaction::of(
                seat,
                update_config(settings_read, rules_read, fonts_changed),
            ),
            UserEvent::SaveSession { explicit } => Reaction {
                seat,
                effects: self.app.save_session(window, explicit),
                actions: saved_notice(seat.is_some()),
            },
            UserEvent::SaveSessionAs(name) => {
                let effects = self.app.save_session_as(window, name);
                Reaction { seat, effects, actions: saved_notice(seat.is_some()) }
            },
            UserEvent::RestoreSessionByName => in_window(seat, one(Action::RestoreNamed)),
            UserEvent::RemotePanesListed => in_window(
                seat,
                two(Action::ShowRemotePanes, Action::RedrawOverlay),
            ),
            UserEvent::CloseButtonArmed { timeout } => Reaction::of(
                seat,
                set_timer(
                    false,
                    Timer::DisarmCloseButton,
                    0,
                    timeout.saturating_add(DISARM_SLACK_MILLIS),
                ),
            ),
            UserEvent::DisarmCloseButton { changed } => if changed {
                in_window(seat, two(Action::MarkCurrentDirty, Action::Redraw))
            } else {
                Reaction::quiet(seat)
            },
            UserEvent::ClearSessionNotice => in_window(
                seat,
                two(Action::HideNotice, Action::Redraw),
            ),
            UserEvent::Exit => Reaction::sessions(seat, self.app.quit(window)),
            UserEvent::Quit => Reaction::sessions(seat, self.app.quit(window)),
            UserEvent::QuitConfirmed => Reaction::sessions(seat, self.app.quit_confirmed(window)),
            UserEvent::QuitSaveAnswered(save) => Reaction::sessions(
                seat,
                self.app.quit_save_answered(window, save),
            ),
            UserEvent::GlyphProtocolInstalled { route } => in_window(
                seat,
                one(Action::InstallGlyphs { route }),
            ),
            UserEvent::GlyphProtocolQuery { route, in_glossary, in_system } => {
                let status = glyph_status(in_glossary, in_system);
                in_window(seat, one(Action::AnswerGlyph { route, status }))
            },
            UserEvent::CloseTerminal { route, last, emptied } => {
                let effects = self.app.close_terminal(window, route, last, emptied);
                Reaction::sessions(seat, effects)
            },
            UserEvent::CursorBlinkingChange => in_window(seat, one(Action::Redraw)),
            UserEvent::CursorBlinkingChangeOnRoute { route, current } => if route == current {
                in_window(seat, two(Action::DamageCursor, Action::Redraw))
            } else {
                Reaction::quiet(seat)
            },
            UserEvent::ProgressReport { island } => if island {
                in_window(seat, two(Action::SetProgress, Action::Redraw))
            } else {
                Reaction::quiet(seat)
            },
            UserEvent::SelectionScrollTick => in_window(
                seat,
                two(Action::ScrollSelection, Action::Redraw),
            ),
            UserEvent::Bell => Reaction::of(
                seat,
                none_or(self.settings.audio_bell, Action::RingBell),
            ),
            UserEvent::DesktopNotification => Reaction::of(
                seat,
                one(Action::Notify { urgency: 1 }),
            ),
            UserEvent::TriggerFired { route, action } => fired(seat, route, action),
            UserEvent::PrepareRender { millis, current, scheduled } => in_window(
                seat,
                set_timer(scheduled, Timer::Render, current, millis),
            ),
            UserEvent::PrepareRenderOnRoute { millis, route, scheduled } => Reaction::of(
                seat,
                set_timer(scheduled, Timer::ScheduledRenderRoute, route, millis),
            ),
            UserEvent::BlinkCursor { millis, route, scheduled } => Reaction::of(
                seat,
                set_timer(scheduled, Timer::CursorBlinking, route, millis),
            ),
            UserEvent::Title => in_window(seat, one(Action::SetTitle)),
            UserEvent::TitleWithSubtitle => in_window(
                seat,
                two(Action::SetTitle, Action::SetSubtitle),
            ),
            UserEvent::UpdateTitles => Reaction::of(seat, one(Action::UpdateTitles)),
            UserEvent::MouseCursorDirty => in_window(seat, one(Action::ResetMouse)),
            UserEvent::Scroll => in_window(seat, one(Action::ScrollDisplay)),
            UserEvent::ClipboardLoad { route } => {
                let focused = match seat {
                    Some(s) => s.flags.is_focused,
                    None => false,
                };
                Reaction::of(seat, none_or(focused, Action::SendClipboard { route }))
            },
            UserEvent::ClipboardStore => {
                let focused = match seat {
                    Some(s) => s.flags.is_focused,
                    None => false,
                };
                Reaction::of(seat, none_or(focused, Action::StoreClipboard))
            },
            UserEvent::PtyWrite { route } => in_window(seat, one(Action::SendBytes { route })),
            UserEvent::TextAreaSizeRequest { route } => in_window(
                seat,
                one(Action::SendTextAreaSize { route }),
            ),
            UserEvent::ColorRequest { route, changed, cursor } => in_window(
                seat,
                none_or(changed || !cursor, Action::SendColor { route, own: changed }),
            ),
            UserEvent::ColorChange { route, background } => in_window(
                seat,
                none_or(background, Action::SetBackground { route }),
            ),
            UserEvent::CreateWindow => Reaction::sessions(seat, self.app.create_window(window)),
            UserEvent::CreateNativeTab => in_window(seat, one(Action::CreateNativeTab)),
            UserEvent::CreateConfigEditor => Reaction::of(
                seat,
                one(
                    if self.settings.open_config_with_split {
                        Action::OpenConfigSplit
                    } else {
                        Action::OpenConfigWindow
                    },
                ),
            ),
            UserEvent::CloseWindow { busy } => {
                let effects = self.app.close_window(window, busy);
                Reaction::sessions(seat, effects)
            },
            UserEvent::ResumeSessionAnswered { pending } => in_window(
                seat,
                none_or(pending, Action::RestoreFullSession),
            ),
            UserEvent::CloseWindowConfirmed(save) => {
                let effects = self.app.close_window_confirmed(window, save);
                Reaction::sessions(seat, effects)
            },
            UserEvent::SelectNativeTab => in_window(seat, one(Action::SelectNativeTab)),
            UserEvent::Hide => Reaction::of(seat, one(Action::HideApplication)),
            UserEvent::HideOtherApplications => Reaction::of(seat, one(Action::HideOthers)),
            UserEvent::Minimize(on) => in_window(seat, one(Action::SetMinimized(on))),
            UserEvent::ToggleFullScreen { fullscreen } => in_window(
                seat,
                one(Action::SetFullscreen(!fullscreen)),
            ),
            UserEvent::ToggleMaximized { maximized } => in_window(
                seat,
                one(Action::SetMaximized(!maximized)),
            ),
            UserEvent::ToggleAppearanceTheme { window: theme } => {
                if seat.is_none() {
                    return Reaction::quiet(seat);
                }
                let current = match self.settings.force_theme {
                    Some(t) => t,
                    None => match theme {
                        Some(t) => t,
                        None => Theme::Dark,
                    },
                };
                let next = match current {
                    Theme::Light => Theme::Dark,
                    Theme::Dark => Theme::Light,
                };
                self.settings.force_theme = Some(next);
                Reaction::of(seat, one(Action::ApplyTheme(next)))
            },
        }
    }
}

/// Whether an action is done to a window.
pub open spec fn concerns_window(action: Action) -> bool {
    match action {
        Action::Schedule { .. }
        | Action::ReportSettingsError
        | Action::ReportRulesError
        | Action::LoadFonts
        | Action::ApplySettings { .. }
        | Action::RingBell
        | Action::Notify { .. }
        | Action::StartCoprocess { .. }
        | Action::UpdateTitles
        | Action::OpenConfigSplit
        | Action::OpenConfigWindow
        | Action::HideApplication
        | Action::HideOthers => false,
        _ => true,
    }
}

/// Nothing is done to a window that is gone.
pub proof fn law_a_gone_window_is_left_alone(d: DeskView, window: u64, event: UserEvent, i: int)
    requires
        0 <= i < reacted(d, window, None, event).1.actions.len(),
    ensures
        reacted(d, window, None, event).1.seat is None,
        !concerns_window(reacted(d, window, None, event).1.actions[i]),
{
    let actions = reacted(d, window, None, event).1.actions;
    if let UserEvent::UpdateConfig { settings_read, rules_read, fonts_changed } = event {
        if settings_read {
            let head = only_if(fonts_changed, Action::LoadFonts);
            let body = head + seq![
                Action::ApplySettings { fonts: fonts_changed, keep_rules: !rules_read },
            ];
            assert(actions == body + only_if(!rules_read, Action::ReportRulesError));
            assert(body.len() == head.len() + 1);
            if i < head.len() {
                assert(actions[i] == head[i]);
            } else if i < body.len() {
                assert(actions[i] == body[i]);
            }
        }
    }
}

/// Toggling the theme twice leads back to the one that was forced.
pub proof fn law_the_theme_toggles_back(
    d: DeskView,
    window: u64,
    seat: Seat,
    first: Option<Theme>,
    second: Option<Theme>,
)
    requires
        d.settings.force_theme is Some,
    ensures
        ({
            let once = reacted(
                d,
                window,
                Some(seat),
                UserEvent::ToggleAppearanceTheme { window: first },
            ).0;
            reacted(
                once,
                window,
                Some(seat),
                UserEvent::ToggleAppearanceTheme { window: second },
            ).0 == d
        }),
{
}

} // verus!
