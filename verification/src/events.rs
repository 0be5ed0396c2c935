//! What the program decides on what happens to it: when a window is drawn, what a
//! reload keeps, what a start restores, what a terminal is told.
use crate::config::SessionRestore;
use crate::context::{BackendView, PaneBackend};
use crate::text::{from_utf8_lossy, lossy_text};
use vstd::prelude::*;

verus! {

/// How long a change of the settings settles, in milliseconds.
pub const CONFIG_DELAY_MILLIS: u64 = 250;

/// How long a window says that it was saved, in milliseconds.
pub const NOTICE_MILLIS: u64 = 1500;

/// How often a selection scrolls that is drawn out of the window, in
/// milliseconds.
pub const SELECTION_SCROLL_MILLIS: u64 = 15;

/// How long a coprocess may run, in seconds.
pub const COPROCESS_SECS: u64 = 10;

/// How long a connection that was closed may take to hand on what it still has,
/// in milliseconds.
pub const CLOSING_MILLIS: u64 = 500;

/// How long another machine may take to list its panes, in milliseconds.
pub const LISTING_MILLIS: u64 = 20_000;

// ---------------------------------------------------------------------------
// Programs that are waited for.

/// How a program stands that was started.
#[derive(Clone, Copy, Debug, PartialEq, Eq, Structural)]
pub enum ChildState {
    Running,
    Ended,
    /// It cannot be told.
    Unknown,
}

/// What is done about a program that was started.
#[derive(Clone, Copy, Debug, PartialEq, Eq, Structural)]
pub enum Watch {
    /// It ended: what it wrote is taken.
    Collect,
    /// It is looked at again a little later.
    Wait,
    /// It took too long: it is ended, and what it wrote is dropped.
    Kill,
    /// Nothing more is known of it.
    GiveUp,
}

/// Decides on a program that has been running for `elapsed` of the `allowed`
/// milliseconds. One that ended in time counts, however late that is noticed.
pub fn watch(state: ChildState, elapsed: u64, allowed: u64) -> (step: Watch)
    ensures
        step == match state {
            ChildState::Ended => Watch::Collect,
            ChildState::Unknown => Watch::GiveUp,
            ChildState::Running => if elapsed < allowed {
                Watch::Wait
            } else {
                Watch::Kill
            },
        },
{
    match state {
        ChildState::Ended => Watch::Collect,
        ChildState::Unknown => Watch::GiveUp,
        ChildState::Running => if elapsed < allowed {
            Watch::Wait
        } else {
            Watch::Kill
        },
    }
}

/// What a terminal is told of what a coprocess wrote: nothing of nothing.
pub fn coprocess_reply(bytes: &[u8]) -> (text: Option<String>)
    ensures
        match text {
            Some(t) => bytes@.len() > 0 && t@ == lossy_text(bytes@),
            None => bytes@.len() == 0,
        },
{
    if bytes.len() == 0 {
        None
    } else {
        Some(from_utf8_lossy(bytes))
    }
}

// ---------------------------------------------------------------------------
// Drawing.

/// When a window is drawn.
#[derive(Clone, Copy, Debug, PartialEq, Eq, Structural)]
pub struct RenderSettings {
    /// Drawn when something happened.
    pub event_based: bool,
    /// Drawn without pause.
    pub game: bool,
    pub disable_unfocused_render: bool,
    pub disable_occluded_render: bool,
}

/// How a window stands.
#[derive(Clone, Copy, Debug, PartialEq, Eq, Structural)]
pub struct WindowFlags {
    pub is_focused: bool,
    pub is_occluded: bool,
    /// Whether it is drawn once though it is hidden: it was shown again.
    pub needs_render_after_occlusion: bool,
}

/// Whether a window without the keyboard is not drawn.
pub open spec fn muted_by_focus(w: WindowFlags, s: RenderSettings) -> bool {
    s.disable_unfocused_render && !w.is_focused
}

/// Whether a hidden window is not drawn.
pub open spec fn muted_by_cover(w: WindowFlags, s: RenderSettings) -> bool {
    s.disable_occluded_render && w.is_occluded && !w.needs_render_after_occlusion
}

/// Whether a window is drawn at all.
pub open spec fn may_draw(w: WindowFlags, s: RenderSettings) -> bool {
    !muted_by_focus(w, s) && !muted_by_cover(w, s)
}

impl WindowFlags {
    /// A window is to be drawn.
    pub fn render(&mut self, settings: &RenderSettings) -> (redraw: bool)
        ensures
            redraw == may_draw(*old(self), *settings),
            *final(self) == if redraw {
                WindowFlags { needs_render_after_occlusion: false, ..*old(self) }
            } else {
                *old(self)
            },
    {
        if settings.disable_unfocused_render && !self.is_focused {
            return false;
        }
        if settings.disable_occluded_render && self.is_occluded
            && !self.needs_render_after_occlusion {
            return false;
        }
        self.needs_render_after_occlusion = false;
        true
    }

    /// A terminal of the window is to be drawn. `wait` is how long to wait till
    /// the next frame, `scheduled` whether that is seen to. A window without the
    /// keyboard is still drawn for its scrollbar.
    pub fn render_route(
        &mut self,
        settings: &RenderSettings,
        scrollbar: bool,
        wait: Option<u64>,
        scheduled: bool,
    ) -> (draw: RouteDraw)
        ensures
            draw == (if !settings.event_based {
                RouteDraw { mark_dirty: false, redraw: false, schedule: None }
            } else if !may_draw(*old(self), *settings) {
                RouteDraw {
                    mark_dirty: false,
                    redraw: muted_by_focus(*old(self), *settings) && scrollbar,
                    schedule: None,
                }
            } else {
                RouteDraw {
                    mark_dirty: true,
                    redraw: wait is None,
                    schedule: if scheduled {
                        None
                    } else {
                        wait
                    },
                }
            }),
            *final(self) == if draw.mark_dirty {
                WindowFlags { needs_render_after_occlusion: false, ..*old(self) }
            } else {
                *old(self)
            },
    {
        if !settings.event_based {
            return RouteDraw { mark_dirty: false, redraw: false, schedule: None };
        }
        if settings.disable_unfocused_render && !self.is_focused {
            return RouteDraw { mark_dirty: false, redraw: scrollbar, schedule: None };
        }
        if !self.render(settings) {
            return RouteDraw { mark_dirty: false, redraw: false, schedule: None };
        }
        match wait {
            Some(millis) => RouteDraw {
                mark_dirty: true,
                redraw: false,
                schedule: if scheduled {
                    None
                } else {
                    Some(millis)
                },
            },
            None => RouteDraw { mark_dirty: true, redraw: true, schedule: None },
        }
    }

    /// Cells of a terminal changed. `known` tells whether the window has that
    /// terminal. The window is drawn for it or not.
    pub fn terminal_damaged(&self, settings: &RenderSettings, known: bool) -> (redraw: bool)
        ensures
            redraw == (settings.event_based && may_draw(*self, *settings) && known),
    {
        settings.event_based && !(settings.disable_unfocused_render && !self.is_focused) && !(
        settings.disable_occluded_render && self.is_occluded && !self.needs_render_after_occlusion)
            && known
    }

    /// The window got or lost the keyboard. It is drawn where that changed.
    pub fn focused(&mut self, focused: bool) -> (redraw: bool)
        ensures
            redraw == (old(self).is_focused != focused),
            *final(self) == (WindowFlags { is_focused: focused, ..*old(self) }),
    {
        let changed = self.is_focused != focused;
        self.is_focused = focused;
        changed
    }

    /// The window was hidden or shown. One that is shown again is drawn once.
    pub fn occluded(&mut self, occluded: bool)
        ensures
            *final(self) == (WindowFlags {
                is_occluded: occluded,
                needs_render_after_occlusion: old(self).needs_render_after_occlusion || (
                old(self).is_occluded && !occluded),
                ..*old(self)
            }),
    {
        if self.is_occluded && !occluded {
            self.needs_render_after_occlusion = true;
        }
        self.is_occluded = occluded;
    }
}

/// What is done for a terminal that is to be drawn.
#[derive(Clone, Copy, Debug, PartialEq, Eq, Structural)]
pub struct RouteDraw {
    pub mark_dirty: bool,
    pub redraw: bool,
    /// The window is drawn after so many milliseconds.
    pub schedule: Option<u64>,
}

/// A window that is shown again is drawn, though hidden windows are not: the
/// first time, and not again while it is hidden anew.
pub proof fn law_a_window_shown_again_is_drawn(w: WindowFlags, s: RenderSettings)
    requires
        w.is_occluded,
        w.is_focused || !s.disable_unfocused_render,
    ensures
        ({
            let back = WindowFlags {
                is_occluded: false,
                needs_render_after_occlusion: true,
                ..w
            };
            let drawn = WindowFlags { needs_render_after_occlusion: false, ..back };
            let gone = WindowFlags { is_occluded: true, ..drawn };
            &&& may_draw(back, s)
            &&& s.disable_occluded_render ==> !may_draw(gone, s)
        }),
{
}

// ---------------------------------------------------------------------------
// Settings that changed.

/// What is done with settings that were read again.
#[derive(Clone, Copy, Debug, PartialEq, Eq, Structural)]
pub enum Reload {
    /// They could not be read: all goes on as it was, and the error is shown.
    Keep,
    /// They are taken, and errors that were shown go.
    Take,
    /// They are taken but for the rules, which could not be read: those go on as
    /// they were, and the error is shown.
    TakeButRules,
}

/// A mistake in the settings costs none that work: what could be read is taken,
/// what could not goes on as it was.
pub fn reload(settings_read: bool, rules_read: bool) -> (what: Reload)
    ensures
        what == (if !settings_read {
            Reload::Keep
        } else if rules_read {
            Reload::Take
        } else {
            Reload::TakeButRules
        }),
{
    if !settings_read {
        Reload::Keep
    } else if rules_read {
        Reload::Take
    } else {
        Reload::TakeButRules
    }
}

// ---------------------------------------------------------------------------
// Starting.

/// Why the program is told to open a window.
#[derive(Clone, Copy, Debug, PartialEq, Eq, Structural)]
pub enum StartCause {
    Init,
    CreateWindow,
    Reopen,
    Other,
}

/// Whether the program opens a window: as it starts, when asked for one, and
/// when it is called up without any.
pub fn opens_window(cause: StartCause, windows: usize) -> (opens: bool)
    ensures
        opens == (cause == StartCause::Init || cause == StartCause::CreateWindow || (cause
            == StartCause::Reopen && windows == 0)),
{
    match cause {
        StartCause::Init | StartCause::CreateWindow => true,
        StartCause::Reopen => windows == 0,
        StartCause::Other => false,
    }
}

/// What a starting program does with a saved session.
#[derive(Clone, Copy, Debug, PartialEq, Eq, Structural)]
pub enum Startup {
    /// The session that was named is restored where there is one, whatever the
    /// mode, and every window takes the name.
    Named,
    /// The saved session is restored.
    Restore,
    /// The user is asked whether to restore it.
    Ask,
    Fresh,
}

pub fn startup(named: bool, mode: SessionRestore, saved: bool) -> (what: Startup)
    ensures
        what == (if named {
            Startup::Named
        } else if !saved {
            Startup::Fresh
        } else {
            match mode {
                SessionRestore::Never => Startup::Fresh,
                SessionRestore::Prompt => Startup::Ask,
                SessionRestore::Always => Startup::Restore,
            }
        }),
{
    if named {
        return Startup::Named;
    }
    if !saved {
        return Startup::Fresh;
    }
    match mode {
        SessionRestore::Never => Startup::Fresh,
        SessionRestore::Prompt => Startup::Ask,
        SessionRestore::Always => Startup::Restore,
    }
}

/// Where URLs that the system hands over are opened.
#[derive(Clone, Copy, Debug, PartialEq, Eq, Structural)]
pub enum UrlPlace {
    /// Each in a window of its own.
    Windows,
    /// Each in a tab beside those of this window.
    TabsOf(usize),
    /// Nowhere: there is no window to add tabs to.
    Nowhere,
}

/// Where URLs are opened. Where the windowing system draws the tabs they are tabs
/// of the first window that is focused, or else of the first one. `focused` tells
/// of each window whether it is.
pub fn url_place(native: bool, focused: &Vec<bool>) -> (place: UrlPlace)
    ensures
        !native ==> place == UrlPlace::Windows,
        native && focused@.len() == 0 ==> place == UrlPlace::Nowhere,
        native && focused@.len() > 0 ==> match place {
            UrlPlace::TabsOf(i) => if focused@.contains(true) {
                i == focused@.index_of_first(true)->0
            } else {
                i == 0
            },
            _ => false,
        },
{
    if !native {
        return UrlPlace::Windows;
    }
    if focused.len() == 0 {
        return UrlPlace::Nowhere;
    }
    let mut i: usize = 0;
    while i < focused.len()
        invariant
            i <= focused@.len(),
            native,
            forall|j: int| 0 <= j < i ==> !(#[trigger] focused@[j]),
        decreases focused.len() - i,
    {
        if focused[i] {
            proof {
                assert(focused@[i as int]);
                focused@.index_of_first_ensures(true);
            }
            return UrlPlace::TabsOf(i);
        }
        i = i + 1;
    }
    UrlPlace::TabsOf(0)
}

/// What is saved after a restore, so that the file refers to the daemons that
/// were attached to.
#[derive(Clone, Copy, Debug, PartialEq, Eq, Structural)]
pub enum Resave {
    /// Every window.
    All,
    /// The window alone.
    One,
    /// Nothing was restored: the file stays for another try.
    Nothing,
}

pub fn resave(restored: bool, had_extra: bool, extra_restored: bool) -> (what: Resave)
    ensures
        what == (if (restored && had_extra) || extra_restored {
            Resave::All
        } else if restored {
            Resave::One
        } else {
            Resave::Nothing
        }),
{
    if (restored && had_extra) || extra_restored {
        Resave::All
    } else if restored {
        Resave::One
    } else {
        Resave::Nothing
    }
}

/// Whether a pane is at work: a program runs in the foreground of its shell. Of
/// one on another machine that is not known, and it counts as at work; the shell
/// of a local one ends with its window anyway.
pub open spec fn at_work(backend: BackendView, active: bool) -> bool {
    match backend {
        BackendView::Local => false,
        BackendView::Ptyd { host, .. } => host is Some || active,
    }
}

/// Whether one of the panes is at work.
pub open spec fn some_at_work(panes: Seq<(PaneBackend, bool)>) -> bool {
    exists|i: int| 0 <= i < panes.len() && at_work((#[trigger] panes[i]).0@, panes[i].1)
}

/// Whether a pane of a window is at work. `active` tells for each whether a
/// program was found in the foreground of its shell.
pub fn window_has_running_process(panes: &Vec<(PaneBackend, bool)>) -> (busy: bool)
    ensures
        busy == some_at_work(panes@),
{
    let mut i: usize = 0;
    while i < panes.len()
        invariant
            i <= panes@.len(),
            forall|j: int| 0 <= j < i ==> !at_work((#[trigger] panes@[j]).0@, panes@[j].1),
        decreases panes.len() - i,
    {
        let busy = match &panes[i].0 {
            PaneBackend::Local => false,
            PaneBackend::Ptyd { host, .. } => host.is_some() || panes[i].1,
        };
        if busy {
            assert(at_work(panes@[i as int].0@, panes@[i as int].1));
            return true;
        }
        i = i + 1;
    }
    false
}

// ---------------------------------------------------------------------------
// Replies to terminals.

/// What is known of a glyph.
#[derive(Clone, Copy, Debug, PartialEq, Eq, Structural)]
pub enum QueryStatus {
    Free,
    System,
    Glossary,
    Both,
}

pub fn glyph_status(in_glossary: bool, in_system: bool) -> (status: QueryStatus)
    ensures
        status == (if in_glossary && in_system {
            QueryStatus::Both
        } else if in_glossary {
            QueryStatus::Glossary
        } else if in_system {
            QueryStatus::System
        } else {
            QueryStatus::Free
        }),
{
    if in_glossary {
        if in_system {
            QueryStatus::Both
        } else {
            QueryStatus::Glossary
        }
    } else if in_system {
        QueryStatus::System
    } else {
        QueryStatus::Free
    }
}

} // verus!
