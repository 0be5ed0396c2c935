//! What the program does with its sessions as windows open and close: which
//! files are written, which are discarded, which daemons are left running, and
//! when the user is asked. Every event is answered with what is to be done.
use crate::close::{close_disposition, disposition, write_on_quit, writes_on_quit, CloseDisposition};
use crate::config::SessionRestore;
use crate::kept::DaemonCheck;
use crate::pane::{opt_text, texts};
use crate::session::copy_text;
use crate::table::{bound, lookup, unbound, Table};
use crate::text::same_text;
use vstd::prelude::*;

verus! {

/// An open window.
#[derive(Debug)]
pub struct OpenWindow {
    pub id: u64,
    /// The named session that the window belongs to.
    pub session_name: Option<String>,
    /// Whether it is a tool and no part of a session.
    pub ephemeral: bool,
}

/// The mathematical value of an [`OpenWindow`].
#[verifier::ext_equal]
pub struct OpenView {
    pub id: u64,
    pub session_name: Option<Seq<char>>,
    pub ephemeral: bool,
}

impl View for OpenWindow {
    type V = OpenView;

    open spec fn view(&self) -> OpenView {
        OpenView {
            id: self.id,
            session_name: opt_text(self.session_name),
            ephemeral: self.ephemeral,
        }
    }
}

pub open spec fn open_views(windows: Seq<OpenWindow>) -> Seq<OpenView> {
    Seq::new(windows.len(), |i: int| windows[i]@)
}

/// What is to be done, in this order. A slot is the file of a session: that of
/// its name, or the one for windows without a name.
#[derive(Debug)]
pub enum Effect {
    /// The windows are captured and recorded for the slot, and all that is
    /// recorded is written, the preferred one first. Every daemon is probed.
    Save { slot: Option<String>, preferred: Option<u64>, windows: Vec<u64> },
    /// The windows are captured and the slot is made to mirror them.
    Mirror {
        slot: Option<String>,
        preferred: u64,
        windows: Vec<u64>,
        check: DaemonCheck,
        keep_pinned: bool,
    },
    /// The window stays in the slot when it is made to mirror others.
    Pin { slot: Option<String>, window: u64 },
    /// The daemons of the dying windows are killed, and those that the slot refers
    /// to but for those of the staying windows; then the file is removed and its
    /// record dropped.
    Decline { slot: Option<String>, dying: Vec<u64>, staying: Vec<u64> },
    /// The window asks whether to save as it closes.
    PromptSaveOnExit { window: u64 },
    /// The window asks whether to save as the program quits.
    PromptSaveOnQuit { window: u64 },
    /// The window asks whether to quit.
    ConfirmQuit { window: u64 },
    /// Panes behind daemons are left to them from now on.
    SetQuitDetaching,
    ClearQuitDetaching,
    /// The panes of the window are left to their daemons when it goes.
    DetachOnClose { window: u64 },
    RemoveWindow { window: u64 },
    /// The window says that its session was saved.
    Notice { window: u64 },
    /// What is known of a terminal that is gone is dropped.
    DropRoute { route: usize },
    /// Timers of a terminal that is gone are dropped.
    Unschedule { route: usize },
    /// A tab of the window was closed and it is drawn anew.
    TabClosed { window: u64 },
    /// A window is opened, in the session of this name from its first pane on.
    OpenWindow { session: Option<String> },
    /// All windows are closed.
    ClearWindows,
    ExitLoop,
    ExitProcess,
}

/// The mathematical value of an [`Effect`].
#[verifier::ext_equal]
pub enum EffectView {
    Save { slot: Option<Seq<char>>, preferred: Option<u64>, windows: Seq<u64> },
    Mirror {
        slot: Option<Seq<char>>,
        preferred: u64,
        windows: Seq<u64>,
        check: DaemonCheck,
        keep_pinned: bool,
    },
    Pin { slot: Option<Seq<char>>, window: u64 },
    Decline { slot: Option<Seq<char>>, dying: Seq<u64>, staying: Seq<u64> },
    PromptSaveOnExit { window: u64 },
    PromptSaveOnQuit { window: u64 },
    ConfirmQuit { window: u64 },
    SetQuitDetaching,
    ClearQuitDetaching,
    DetachOnClose { window: u64 },
    RemoveWindow { window: u64 },
    Notice { window: u64 },
    DropRoute { route: usize },
    Unschedule { route: usize },
    TabClosed { window: u64 },
    OpenWindow { session: Option<Seq<char>> },
    ClearWindows,
    ExitLoop,
    ExitProcess,
}

impl View for Effect {
    type V = EffectView;

    open spec fn view(&self) -> EffectView {
        match self {
            Effect::Save { slot, preferred, windows } => EffectView::Save {
                slot: opt_text(*slot),
                preferred: *preferred,
                windows: windows@,
            },
            Effect::Mirror { slot, preferred, windows, check, keep_pinned } => EffectView::Mirror {
                slot: opt_text(*slot),
                preferred: *preferred,
                windows: windows@,
                check: *check,
                keep_pinned: *keep_pinned,
            },
            Effect::Pin { slot, window } => EffectView::Pin {
                slot: opt_text(*slot),
                window: *window,
            },
            Effect::Decline { slot, dying, staying } => EffectView::Decline {
                slot: opt_text(*slot),
                dying: dying@,
                staying: staying@,
            },
            Effect::PromptSaveOnExit { window } => EffectView::PromptSaveOnExit { window: *window },
            Effect::PromptSaveOnQuit { window } => EffectView::PromptSaveOnQuit { window: *window },
            Effect::ConfirmQuit { window } => EffectView::ConfirmQuit { window: *window },
            Effect::SetQuitDetaching => EffectView::SetQuitDetaching,
            Effect::ClearQuitDetaching => EffectView::ClearQuitDetaching,
            Effect::DetachOnClose { window } => EffectView::DetachOnClose { window: *window },
            Effect::RemoveWindow { window } => EffectView::RemoveWindow { window: *window },
            Effect::Notice { window } => EffectView::Notice { window: *window },
            Effect::DropRoute { route } => EffectView::DropRoute { route: *route },
            Effect::Unschedule { route } => EffectView::Unschedule { route: *route },
            Effect::TabClosed { window } => EffectView::TabClosed { window: *window },
            Effect::OpenWindow { session } => EffectView::OpenWindow {
                session: opt_text(*session),
            },
            Effect::ClearWindows => EffectView::ClearWindows,
            Effect::ExitLoop => EffectView::ExitLoop,
            Effect::ExitProcess => EffectView::ExitProcess,
        }
    }
}

pub open spec fn effect_views(effects: Seq<Effect>) -> Seq<EffectView> {
    Seq::new(effects.len(), |i: int| effects[i]@)
}

/// The settings that closing and quitting depend on.
#[derive(Clone, Copy, Debug, PartialEq, Eq, Structural)]
pub struct QuitSettings {
    pub restore: SessionRestore,
    pub confirm_before_quit: bool,
    /// Whether the platform asks before a window's close button takes effect.
    pub platform_confirms_close: bool,
    /// Whether the platform keeps a program without windows.
    pub outlives_windows: bool,
}

/// The open windows.
pub struct Application {
    windows: Vec<OpenWindow>,
    pending: Table<bool>,
    settings: QuitSettings,
}

/// The mathematical value of an [`Application`].
#[verifier::ext_equal]
pub struct AppView {
    pub windows: Seq<OpenView>,
    /// For windows that ask whether to save: whether their daemons are kept.
    pub pending: Seq<(u64, bool)>,
    pub settings: QuitSettings,
}

impl View for Application {
    type V = AppView;

    closed spec fn view(&self) -> AppView {
        AppView {
            windows: open_views(self.windows@),
            pending: self.pending@,
            settings: self.settings,
        }
    }
}

// ---------------------------------------------------------------------------
// Windows and slots.

/// The place of the first window with an id.
pub open spec fn index_of_window(windows: Seq<OpenView>, id: u64) -> Option<int>
    decreases windows.len(),
{
    if windows.len() == 0 {
        None
    } else if windows[0].id == id {
        Some(0)
    } else {
        match index_of_window(windows.skip(1), id) {
            Some(i) => Some(i + 1),
            None => None,
        }
    }
}

pub open spec fn is_open(v: AppView, id: u64) -> bool {
    index_of_window(v.windows, id) is Some
}

/// The slot of a window; that for windows without a name where it is not open.
pub open spec fn slot_of(v: AppView, id: u64) -> Option<Seq<char>> {
    match index_of_window(v.windows, id) {
        Some(i) => v.windows[i].session_name,
        None => None,
    }
}

/// The windows of a slot that are saved.
pub open spec fn captured_in(windows: Seq<OpenView>, slot: Option<Seq<char>>) -> Seq<u64>
    decreases windows.len(),
{
    if windows.len() == 0 {
        Seq::empty()
    } else {
        let before = captured_in(windows.drop_last(), slot);
        let w = windows.last();
        if !w.ephemeral && w.session_name == slot {
            before.push(w.id)
        } else {
            before
        }
    }
}

/// The windows of a slot.
pub open spec fn members_of(windows: Seq<OpenView>, slot: Option<Seq<char>>) -> Seq<u64>
    decreases windows.len(),
{
    if windows.len() == 0 {
        Seq::empty()
    } else {
        let before = members_of(windows.drop_last(), slot);
        let w = windows.last();
        if w.session_name == slot {
            before.push(w.id)
        } else {
            before
        }
    }
}

/// The windows that are not among some.
pub open spec fn staying_of(windows: Seq<OpenView>, dying: Seq<u64>) -> Seq<u64>
    decreases windows.len(),
{
    if windows.len() == 0 {
        Seq::empty()
    } else {
        let before = staying_of(windows.drop_last(), dying);
        if dying.contains(windows.last().id) {
            before
        } else {
            before.push(windows.last().id)
        }
    }
}

/// The names of open sessions, each once.
pub open spec fn names_of(windows: Seq<OpenView>) -> Seq<Seq<char>>
    decreases windows.len(),
{
    if windows.len() == 0 {
        Seq::empty()
    } else {
        let before = names_of(windows.drop_last());
        match windows.last().session_name {
            Some(name) => if before.contains(name) {
                before
            } else {
                before.push(name)
            },
            None => before,
        }
    }
}

/// Whether a quit must ask: a session that is open would be asked for.
pub open spec fn quit_asks(v: AppView) -> bool {
    exists|i: int|
        0 <= i < v.windows.len() && disposition(
            (#[trigger] v.windows[i]).session_name is Some,
            v.settings.restore,
        ) == CloseDisposition::Prompt
}

/// The first window of a slot.
pub open spec fn first_member(windows: Seq<OpenView>, slot: Option<Seq<char>>) -> Option<u64> {
    let all = members_of(windows, slot);
    if all.len() == 0 {
        None
    } else {
        Some(all[0])
    }
}

pub open spec fn save_effect(v: AppView, slot: Option<Seq<char>>, preferred: Option<u64>) -> EffectView {
    EffectView::Save { slot, preferred, windows: captured_in(v.windows, slot) }
}

pub open spec fn mirror_effect(
    v: AppView,
    slot: Option<Seq<char>>,
    preferred: u64,
    check: DaemonCheck,
    keep_pinned: bool,
) -> EffectView {
    EffectView::Mirror {
        slot,
        preferred,
        windows: captured_in(v.windows, slot),
        check,
        keep_pinned,
    }
}

pub open spec fn decline_effect(v: AppView, slot: Option<Seq<char>>, dying: Seq<u64>) -> EffectView {
    EffectView::Decline { slot, dying, staying: staying_of(v.windows, dying) }
}

// ---------------------------------------------------------------------------
// Quitting.

/// Saves of the first `n` named sessions.
pub open spec fn named_saves(v: AppView, n: nat) -> Seq<EffectView>
    decreases n,
{
    if n == 0 {
        Seq::empty()
    } else {
        let name = Some(names_of(v.windows)[n - 1]);
        named_saves(v, (n - 1) as nat).push(save_effect(v, name, first_member(v.windows, name)))
    }
}

/// What is written as the program ends. Named sessions and the one without a
/// name each follow their own disposition.
pub open spec fn quit_saves(v: AppView, focused: Option<u64>, consented: bool) -> Seq<EffectView> {
    (if writes_on_quit(true, v.settings.restore, consented) {
        named_saves(v, names_of(v.windows).len())
    } else {
        Seq::empty()
    }) + if writes_on_quit(false, v.settings.restore, consented) {
        seq![save_effect(v, None, focused)]
    } else {
        Seq::empty()
    }
}

/// Discards of the first `n` named sessions.
pub open spec fn named_declines(v: AppView, n: nat) -> Seq<EffectView>
    decreases n,
{
    if n == 0 {
        Seq::empty()
    } else {
        let name = Some(names_of(v.windows)[n - 1]);
        named_declines(v, (n - 1) as nat).push(
            decline_effect(v, name, members_of(v.windows, name)),
        )
    }
}

/// What is discarded as the program ends after a no: the sessions that were
/// asked for.
pub open spec fn quit_declines(v: AppView) -> Seq<EffectView> {
    (if disposition(true, v.settings.restore) == CloseDisposition::Prompt {
        named_declines(v, names_of(v.windows).len())
    } else {
        Seq::empty()
    }) + if disposition(false, v.settings.restore) == CloseDisposition::Prompt && members_of(
        v.windows,
        None,
    ).len() > 0 {
        seq![decline_effect(v, None, members_of(v.windows, None))]
    } else {
        Seq::empty()
    }
}

/// The end of the program, with the answer where the user was asked.
pub open spec fn quit_all(v: AppView, focused: Option<u64>, consent: Option<bool>) -> Seq<EffectView> {
    seq![EffectView::SetQuitDetaching] + (if consent == Some(false) {
        quit_declines(v)
    } else {
        quit_saves(v, focused, consent == Some(true))
    }) + seq![EffectView::ExitProcess]
}

/// A quit: the user is asked first where a session calls for it.
pub open spec fn quit_now(v: AppView, id: u64) -> Seq<EffectView> {
    if quit_asks(v) && is_open(v, id) {
        seq![EffectView::PromptSaveOnQuit { window: id }]
    } else {
        quit_all(v, Some(id), None)
    }
}

// ---------------------------------------------------------------------------
// Closing.

/// The windows without one.
pub open spec fn without_window(v: AppView, id: u64) -> AppView {
    match index_of_window(v.windows, id) {
        Some(i) => AppView { windows: v.windows.remove(i), ..v },
        None => v,
    }
}

/// A closing window: its panes are left to their daemons or end with it, and the
/// program ends with its last window.
pub open spec fn close_window_now(v: AppView, id: u64, keeps: bool) -> Seq<EffectView> {
    (if keeps && is_open(v, id) {
        seq![EffectView::DetachOnClose { window: id }]
    } else {
        Seq::empty()
    }) + seq![EffectView::RemoveWindow { window: id }, EffectView::ClearQuitDetaching] + if without_window(
        v,
        id,
    ).windows.len() == 0 && (!v.settings.outlives_windows || !v.settings.confirm_before_quit) {
        seq![EffectView::ExitLoop]
    } else {
        Seq::empty()
    }
}

/// A closing window whose session was settled. Where its panes end with it, it
/// is taken out of its session, if that may be written.
pub open spec fn teardown(v: AppView, id: u64, keeps: bool, consented: bool) -> Seq<EffectView> {
    close_window_now(v, id, keeps) + if !keeps && (v.settings.restore != SessionRestore::Never
        || consented) {
        seq![
            mirror_effect(without_window(v, id), slot_of(v, id), id, DaemonCheck::AssumeAlive, true),
        ]
    } else {
        Seq::empty()
    }
}

/// Whether a closing window asks.
pub open spec fn close_asks(v: AppView, id: u64) -> bool {
    match index_of_window(v.windows, id) {
        Some(i) => !v.windows[i].ephemeral && disposition(
            v.windows[i].session_name is Some,
            v.settings.restore,
        ) == CloseDisposition::Prompt,
        None => false,
    }
}

/// Whether a closing window is saved silently.
pub open spec fn close_saves(v: AppView, id: u64) -> bool {
    match index_of_window(v.windows, id) {
        Some(i) => !v.windows[i].ephemeral && disposition(
            v.windows[i].session_name is Some,
            v.settings.restore,
        ) == CloseDisposition::Save,
        None => disposition(false, v.settings.restore) == CloseDisposition::Save,
    }
}

/// A window closes: it asks, and what becomes of its daemons is noted for the
/// answer; or it is saved where that is silent, and torn down.
pub open spec fn closing(v: AppView, id: u64, keeps: bool) -> (AppView, Seq<EffectView>) {
    if close_asks(v, id) {
        (
            AppView { pending: bound(v.pending, id, keeps), ..v },
            seq![EffectView::PromptSaveOnExit { window: id }],
        )
    } else {
        (
            without_window(v, id),
            (if close_saves(v, id) {
                seq![save_effect(v, slot_of(v, id), Some(id))]
            } else {
                Seq::empty()
            }) + teardown(v, id, keeps, false),
        )
    }
}

/// The last tab of a window was closed. A window at work is kept: its daemons go
/// on, and it stays in its session.
pub open spec fn on_close_window(v: AppView, id: u64, busy: bool) -> (AppView, Seq<EffectView>) {
    let (after, effects) = closing(v, id, busy);
    (
        after,
        (if busy {
            seq![EffectView::Pin { slot: slot_of(v, id), window: id }]
        } else {
            Seq::empty()
        }) + effects,
    )
}

/// The close button of a window. Its daemons go on.
pub open spec fn on_close_requested(v: AppView, id: u64) -> (AppView, Seq<EffectView>) {
    if !is_open(v, id) {
        (v, Seq::empty())
    } else if v.settings.confirm_before_quit && !v.settings.platform_confirms_close {
        (v, seq![EffectView::ConfirmQuit { window: id }])
    } else {
        closing(v, id, true)
    }
}

/// A shell ended. `last` tells whether its window goes with it, `emptied`
/// whether the window turned out to have no tab left.
pub open spec fn on_close_terminal(
    v: AppView,
    id: u64,
    route: usize,
    last: bool,
    emptied: bool,
) -> (AppView, Seq<EffectView>) {
    if !is_open(v, id) {
        (v, Seq::empty())
    } else if last {
        let (after, effects) = closing(v, id, false);
        if close_asks(v, id) {
            (after, seq![EffectView::DropRoute { route }] + effects)
        } else {
            (
                after,
                seq![EffectView::DropRoute { route }] + (if close_saves(v, id) {
                    seq![save_effect(v, slot_of(v, id), Some(id))]
                } else {
                    Seq::empty()
                }) + seq![EffectView::Unschedule { route }] + teardown(v, id, false, false),
            )
        }
    } else if emptied {
        (
            without_window(v, id),
            seq![EffectView::DropRoute { route }, EffectView::Unschedule { route }] + teardown(
                v,
                id,
                false,
                false,
            ),
        )
    } else {
        (v, seq![EffectView::DropRoute { route }, EffectView::TabClosed { window: id }])
    }
}

/// The question of a closing window was answered. A yes does what would have
/// been done silently; a no discards the session. Where no close is noted its
/// daemons are kept.
pub open spec fn on_close_confirmed(v: AppView, id: u64, save: bool) -> (AppView, Seq<EffectView>) {
    let keeps = match lookup(v.pending, id) {
        Some(k) => k,
        None => true,
    };
    let settled = AppView { pending: unbound(v.pending, id), ..v };
    (
        without_window(settled, id),
        if save {
            seq![save_effect(v, slot_of(v, id), Some(id))] + teardown(v, id, keeps, true)
        } else {
            seq![decline_effect(v, slot_of(v, id), seq![id])] + close_window_now(v, id, true)
        },
    )
}

/// A session is saved while it goes on: by the user, with every daemon probed
/// and the pins dropped, or after a change.
pub open spec fn on_save_session(v: AppView, id: u64, explicit: bool) -> Seq<EffectView> {
    seq![
        mirror_effect(
            v,
            slot_of(v, id),
            id,
            if explicit {
                DaemonCheck::Probe
            } else {
                DaemonCheck::AssumeAlive
            },
            !explicit,
        ),
    ] + if is_open(v, id) {
        seq![EffectView::Notice { window: id }]
    } else {
        Seq::empty()
    }
}

/// What is done where a window asks for another one: that joins its session.
pub open spec fn on_create_window(v: AppView, id: u64) -> Seq<EffectView> {
    seq![EffectView::OpenWindow { session: slot_of(v, id) }]
}

/// The windows with one bound to a name.
pub open spec fn renamed(v: AppView, id: u64, name: Option<Seq<char>>) -> AppView {
    match index_of_window(v.windows, id) {
        Some(i) => AppView {
            windows: v.windows.update(i, OpenView { session_name: name, ..v.windows[i] }),
            ..v
        },
        None => v,
    }
}

/// A window is bound to a name and the session saved under it. Without a name it
/// only says that it was saved.
pub open spec fn on_save_as(v: AppView, id: u64, name: Option<Seq<char>>) -> (AppView, Seq<EffectView>) {
    let after = if name is Some {
        renamed(v, id, name)
    } else {
        v
    };
    (
        after,
        (if is_open(v, id) && name is Some {
            seq![mirror_effect(after, name, id, DaemonCheck::Probe, false)]
        } else {
            Seq::empty()
        }) + if is_open(v, id) {
            seq![EffectView::Notice { window: id }]
        } else {
            Seq::empty()
        },
    )
}

/// A quit was asked for.
pub open spec fn on_quit(v: AppView, id: u64) -> Seq<EffectView> {
    if v.settings.confirm_before_quit {
        if is_open(v, id) {
            seq![EffectView::ConfirmQuit { window: id }]
        } else {
            Seq::empty()
        }
    } else {
        quit_now(v, id)
    }
}

/// The program is being ended: what is saved silently is saved.
pub open spec fn on_exiting(v: AppView, focused: Option<u64>) -> (AppView, Seq<EffectView>) {
    (
        AppView { windows: Seq::empty(), ..v },
        seq![EffectView::SetQuitDetaching] + quit_saves(v, focused, false) + seq![
            EffectView::ClearWindows,
            EffectView::ExitProcess,
        ],
    )
}

// ---------------------------------------------------------------------------
// The program at work.

proof fn lemma_window_index(windows: Seq<OpenView>, id: u64, i: int)
    requires
        0 <= i <= windows.len(),
        forall|j: int| 0 <= j < i ==> (#[trigger] windows[j]).id != id,
    ensures
        i < windows.len() && windows[i].id == id ==> index_of_window(windows, id) == Some(i),
        i == windows.len() ==> index_of_window(windows, id) is None,
    decreases i,
{
    if i > 0 {
        let rest = windows.skip(1);
        assert forall|j: int| 0 <= j < i - 1 implies (#[trigger] rest[j]).id != id by {
            assert(rest[j] == windows[j + 1]);
        }
        assert(windows[0].id != id);
        lemma_window_index(rest, id, i - 1);
    }
}

/// Whether two optional texts are the same.
fn same_slot(a: &Option<String>, b: &Option<String>) -> (same: bool)
    ensures
        same == (opt_text(*a) == opt_text(*b)),
{
    match (a, b) {
        (Some(x), Some(y)) => same_text(x.as_str(), y.as_str()),
        (None, None) => true,
        _ => false,
    }
}

fn has_window(ids: &Vec<u64>, id: u64) -> (found: bool)
    ensures
        found == ids@.contains(id),
{
    let mut i: usize = 0;
    while i < ids.len()
        invariant
            i <= ids@.len(),
            forall|j: int| 0 <= j < i ==> #[trigger] ids@[j] != id,
        decreases ids.len() - i,
    {
        if ids[i] == id {
            return true;
        }
        i = i + 1;
    }
    false
}

/// Appends one thing to do.
fn push_effect(out: &mut Vec<Effect>, effect: Effect)
    ensures
        effect_views(final(out)@) == effect_views(old(out)@) + seq![effect@],
{
    out.push(effect);
    assert(effect_views(out@) =~= effect_views(old(out)@) + seq![effect@]);
}

impl Application {
    pub fn new(settings: QuitSettings) -> (app: Application)
        ensures
            app@ == (AppView { windows: Seq::empty(), pending: Seq::empty(), settings }),
    {
        let app = Application { windows: Vec::new(), pending: Table::new(), settings };
        assert(app@.windows =~= Seq::<OpenView>::empty());
        app
    }

    /// Takes changed settings.
    pub fn configure(&mut self, settings: QuitSettings)
        ensures
            final(self)@ == (AppView { settings, ..old(self)@ }),
    {
        self.settings = settings;
    }

    /// Takes a window that was opened.
    pub fn open_window(&mut self, window: OpenWindow)
        ensures
            final(self)@ == (AppView {
                windows: old(self)@.windows.push(window@),
                ..old(self)@
            }),
    {
        self.windows.push(window);
        assert(self@.windows =~= old(self)@.windows.push(window@));
    }

    /// How many windows are open.
    pub fn window_count(&self) -> (n: usize)
        ensures
            n == self@.windows.len(),
    {
        self.windows.len()
    }

    fn find(&self, id: u64) -> (index: Option<usize>)
        ensures
            match index {
                Some(i) => index_of_window(self@.windows, id) == Some(i as int) && i
                    < self@.windows.len(),
                None => index_of_window(self@.windows, id) is None,
            },
    {
        let mut i: usize = 0;
        while i < self.windows.len()
            invariant
                i <= self@.windows.len(),
                forall|j: int| 0 <= j < i ==> (#[trigger] self@.windows[j]).id != id,
            decreases self.windows.len() - i,
        {
            assert(self@.windows[i as int] == self.windows@[i as int]@);
            if self.windows[i].id == id {
                proof {
                    lemma_window_index(self@.windows, id, i as int);
                }
                return Some(i);
            }
            i = i + 1;
        }
        proof {
            lemma_window_index(self@.windows, id, i as int);
        }
        None
    }

    /// The session name of a window.
    pub fn session_of(&self, id: u64) -> (name: Option<String>)
        ensures
            opt_text(name) == slot_of(self@, id),
    {
        match self.find(id) {
            Some(i) => {
                assert(self@.windows[i as int] == self.windows@[i as int]@);
                copy_text(&self.windows[i].session_name)
            },
            None => None,
        }
    }

    fn captured(&self, slot: &Option<String>) -> (ids: Vec<u64>)
        ensures
            ids@ == captured_in(self@.windows, opt_text(*slot)),
    {
        let ghost all = self@.windows;
        let mut ids: Vec<u64> = Vec::new();
        let mut i: usize = 0;
        assert(all.take(0) =~= Seq::<OpenView>::empty());
        assert(ids@ =~= captured_in(all.take(0), opt_text(*slot)));
        while i < self.windows.len()
            invariant
                i <= self.windows@.len(),
                all == self@.windows,
                ids@ == captured_in(all.take(i as int), opt_text(*slot)),
            decreases self.windows.len() - i,
        {
            let w = &self.windows[i];
            assert(all[i as int] == w@);
            assert(all.take(i + 1).drop_last() =~= all.take(i as int));
            assert(all.take(i + 1).last() == w@);
            if !w.ephemeral && same_slot(&w.session_name, slot) {
                ids.push(w.id);
            }
            i = i + 1;
        }
        assert(all.take(i as int) =~= all);
        ids
    }

    /// The windows of a session.
    pub fn windows_of(&self, slot: &Option<String>) -> (ids: Vec<u64>)
        ensures
            ids@ == members_of(self@.windows, opt_text(*slot)),
    {
        let ghost all = self@.windows;
        let mut ids: Vec<u64> = Vec::new();
        let mut i: usize = 0;
        assert(all.take(0) =~= Seq::<OpenView>::empty());
        assert(ids@ =~= members_of(all.take(0), opt_text(*slot)));
        while i < self.windows.len()
            invariant
                i <= self.windows@.len(),
                all == self@.windows,
                ids@ == members_of(all.take(i as int), opt_text(*slot)),
            decreases self.windows.len() - i,
        {
            let w = &self.windows[i];
            assert(all[i as int] == w@);
            assert(all.take(i + 1).drop_last() =~= all.take(i as int));
            assert(all.take(i + 1).last() == w@);
            if same_slot(&w.session_name, slot) {
                ids.push(w.id);
            }
            i = i + 1;
        }
        assert(all.take(i as int) =~= all);
        ids
    }

    fn staying(&self, dying: &Vec<u64>) -> (ids: Vec<u64>)
        ensures
            ids@ == staying_of(self@.windows, dying@),
    {
        let ghost all = self@.windows;
        let mut ids: Vec<u64> = Vec::new();
        let mut i: usize = 0;
        assert(all.take(0) =~= Seq::<OpenView>::empty());
        assert(ids@ =~= staying_of(all.take(0), dying@));
        while i < self.windows.len()
            invariant
                i <= self.windows@.len(),
                all == self@.windows,
                ids@ == staying_of(all.take(i as int), dying@),
            decreases self.windows.len() - i,
        {
            let w = &self.windows[i];
            assert(all[i as int] == w@);
            assert(all.take(i + 1).drop_last() =~= all.take(i as int));
            assert(all.take(i + 1).last() == w@);
            if !has_window(dying, w.id) {
                ids.push(w.id);
            }
            i = i + 1;
        }
        assert(all.take(i as int) =~= all);
        ids
    }

    /// The names of open sessions, each once.
    pub fn distinct_session_names(&self) -> (names: Vec<String>)
        ensures
            texts(names@) == names_of(self@.windows),
    {
        let ghost all = self@.windows;
        let mut names: Vec<String> = Vec::new();
        let mut i: usize = 0;
        assert(all.take(0) =~= Seq::<OpenView>::empty());
        assert(texts(names@) =~= names_of(all.take(0)));
        while i < self.windows.len()
            invariant
                i <= self.windows@.len(),
                all == self@.windows,
                texts(names@) == names_of(all.take(i as int)),
            decreases self.windows.len() - i,
        {
            let w = &self.windows[i];
            assert(all[i as int] == w@);
            assert(all.take(i + 1).drop_last() =~= all.take(i as int));
            assert(all.take(i + 1).last() == w@);
            let ghost before = names@;
            if let Some(name) = &w.session_name {
                if !crate::kept::among(&names, name.as_str()) {
                    names.push(name.clone());
                    assert(texts(names@) =~= texts(before).push(name@));
                }
            }
            i = i + 1;
            assert(texts(names@) == names_of(all.take(i as int)));
        }
        assert(all.take(i as int) =~= all);
        names
    }

    /// Whether a quit must ask.
    pub fn quit_needs_prompt(&self) -> (asks: bool)
        ensures
            asks == quit_asks(self@),
    {
        let named = close_disposition(true, self.settings.restore) == CloseDisposition::Prompt;
        let unnamed = close_disposition(false, self.settings.restore) == CloseDisposition::Prompt;
        let mut i: usize = 0;
        while i < self.windows.len()
            invariant
                i <= self.windows@.len(),
                named == (disposition(true, self@.settings.restore) == CloseDisposition::Prompt),
                unnamed == (disposition(false, self@.settings.restore) == CloseDisposition::Prompt),
                forall|j: int|
                    0 <= j < i ==> disposition(
                        (#[trigger] self@.windows[j]).session_name is Some,
                        self@.settings.restore,
                    ) != CloseDisposition::Prompt,
            decreases self.windows.len() - i,
        {
            assert(self@.windows[i as int] == self.windows@[i as int]@);
            let is_named = self.windows[i].session_name.is_some();
            if (is_named && named) || (!is_named && unnamed) {
                assert(disposition(
                    self@.windows[i as int].session_name is Some,
                    self@.settings.restore,
                ) == CloseDisposition::Prompt);
                return true;
            }
            i = i + 1;
        }
        false
    }

    fn push_save(&self, out: &mut Vec<Effect>, slot: &Option<String>, preferred: Option<u64>)
        ensures
            effect_views(final(out)@) == effect_views(old(out)@) + seq![
                save_effect(self@, opt_text(*slot), preferred),
            ],
    {
        let effect = Effect::Save {
            slot: copy_text(slot),
            preferred,
            windows: self.captured(slot),
        };
        push_effect(out, effect);
    }

    fn push_mirror(
        &self,
        out: &mut Vec<Effect>,
        slot: &Option<String>,
        preferred: u64,
        check: DaemonCheck,
        keep_pinned: bool,
    )
        ensures
            effect_views(final(out)@) == effect_views(old(out)@) + seq![
                mirror_effect(self@, opt_text(*slot), preferred, check, keep_pinned),
            ],
    {
        let effect = Effect::Mirror {
            slot: copy_text(slot),
            preferred,
            windows: self.captured(slot),
            check,
            keep_pinned,
        };
        push_effect(out, effect);
    }

    fn push_decline(&self, out: &mut Vec<Effect>, slot: &Option<String>, dying: Vec<u64>)
        ensures
            effect_views(final(out)@) == effect_views(old(out)@) + seq![
                decline_effect(self@, opt_text(*slot), dying@),
            ],
    {
        let staying = self.staying(&dying);
        push_effect(out, Effect::Decline { slot: copy_text(slot), dying, staying });
    }

    fn push_quit_saves(&self, out: &mut Vec<Effect>, focused: Option<u64>, consented: bool)
        ensures
            effect_views(final(out)@) == effect_views(old(out)@) + quit_saves(
                self@,
                focused,
                consented,
            ),
    {
        let ghost start = effect_views(out@);
        if write_on_quit(true, self.settings.restore, consented) {
            let names = self.distinct_session_names();
            let mut i: usize = 0;
            assert(start + named_saves(self@, 0) =~= start);
            while i < names.len()
                invariant
                    i <= names@.len(),
                    texts(names@) == names_of(self@.windows),
                    effect_views(out@) == start + named_saves(self@, i as nat),
                decreases names.len() - i,
            {
                assert(texts(names@)[i as int] == names@[i as int]@);
                let slot: Option<String> = Some(names[i].clone());
                let members = self.windows_of(&slot);
                let preferred: Option<u64> = if members.len() > 0 {
                    Some(members[0])
                } else {
                    None
                };
                self.push_save(out, &slot, preferred);
                i = i + 1;
                assert(effect_views(out@) =~= start + named_saves(self@, i as nat));
            }
        }
        let ghost middle = effect_views(out@);
        if write_on_quit(false, self.settings.restore, consented) {
            self.push_save(out, &None, focused);
        }
        assert(effect_views(out@) =~= start + quit_saves(self@, focused, consented));
    }

    fn push_quit_declines(&self, out: &mut Vec<Effect>)
        ensures
            effect_views(final(out)@) == effect_views(old(out)@) + quit_declines(self@),
    {
        let ghost start = effect_views(out@);
        if close_disposition(true, self.settings.restore) == CloseDisposition::Prompt {
            let names = self.distinct_session_names();
            let mut i: usize = 0;
            assert(start + named_declines(self@, 0) =~= start);
            while i < names.len()
                invariant
                    i <= names@.len(),
                    texts(names@) == names_of(self@.windows),
                    effect_views(out@) == start + named_declines(self@, i as nat),
                decreases names.len() - i,
            {
                assert(texts(names@)[i as int] == names@[i as int]@);
                let slot: Option<String> = Some(names[i].clone());
                let dying = self.windows_of(&slot);
                self.push_decline(out, &slot, dying);
                i = i + 1;
                assert(effect_views(out@) =~= start + named_declines(self@, i as nat));
            }
        }
        if close_disposition(false, self.settings.restore) == CloseDisposition::Prompt {
            let dying = self.windows_of(&None);
            if dying.len() > 0 {
                self.push_decline(out, &None, dying);
            }
        }
        assert(effect_views(out@) =~= start + quit_declines(self@));
    }

    fn push_quit_all(&self, out: &mut Vec<Effect>, focused: Option<u64>, consent: Option<bool>)
        ensures
            effect_views(final(out)@) == effect_views(old(out)@) + quit_all(self@, focused, consent),
    {
        let ghost start = effect_views(out@);
        push_effect(out, Effect::SetQuitDetaching);
        match consent {
            Some(false) => self.push_quit_declines(out),
            Some(true) => self.push_quit_saves(out, focused, true),
            None => self.push_quit_saves(out, focused, false),
        }
        push_effect(out, Effect::ExitProcess);
        assert(effect_views(out@) =~= start + quit_all(self@, focused, consent));
    }

    fn push_quit_now(&self, out: &mut Vec<Effect>, id: u64)
        ensures
            effect_views(final(out)@) == effect_views(old(out)@) + quit_now(self@, id),
    {
        if self.quit_needs_prompt() && self.find(id).is_some() {
            push_effect(out, Effect::PromptSaveOnQuit { window: id });
        } else {
            self.push_quit_all(out, Some(id), None);
        }
    }

    /// A quit was asked for, by a window or the system.
    pub fn quit(&self, id: u64) -> (effects: Vec<Effect>)
        ensures
            effect_views(effects@) == on_quit(self@, id),
    {
        let mut out: Vec<Effect> = Vec::new();
        assert(effect_views(out@) =~= Seq::<EffectView>::empty());
        if self.settings.confirm_before_quit {
            if self.find(id).is_some() {
                push_effect(&mut out, Effect::ConfirmQuit { window: id });
            }
        } else {
            self.push_quit_now(&mut out, id);
        }
        assert(effect_views(out@) =~= on_quit(self@, id));
        out
    }

    /// The question whether to quit was answered with yes.
    pub fn quit_confirmed(&self, id: u64) -> (effects: Vec<Effect>)
        ensures
            effect_views(effects@) == quit_now(self@, id),
    {
        let mut out: Vec<Effect> = Vec::new();
        assert(effect_views(out@) =~= Seq::<EffectView>::empty());
        self.push_quit_now(&mut out, id);
        assert(effect_views(out@) =~= quit_now(self@, id));
        out
    }

    /// The question whether to save on quitting was answered.
    pub fn quit_save_answered(&self, id: u64, save: bool) -> (effects: Vec<Effect>)
        ensures
            effect_views(effects@) == quit_all(self@, Some(id), Some(save)),
    {
        let mut out: Vec<Effect> = Vec::new();
        assert(effect_views(out@) =~= Seq::<EffectView>::empty());
        self.push_quit_all(&mut out, Some(id), Some(save));
        assert(effect_views(out@) =~= quit_all(self@, Some(id), Some(save)));
        out
    }

    /// The program is being ended.
    pub fn exiting(&mut self, focused: Option<u64>) -> (effects: Vec<Effect>)
        ensures
            (final(self)@, effect_views(effects@)) == on_exiting(old(self)@, focused),
    {
        let ghost v = self@;
        let mut out: Vec<Effect> = Vec::new();
        assert(effect_views(out@) =~= Seq::<EffectView>::empty());
        push_effect(&mut out, Effect::SetQuitDetaching);
        self.push_quit_saves(&mut out, focused, false);
        push_effect(&mut out, Effect::ClearWindows);
        push_effect(&mut out, Effect::ExitProcess);
        self.windows = Vec::new();
        assert(effect_views(out@) =~= on_exiting(v, focused).1);
        assert(self@ =~= on_exiting(v, focused).0);
        out
    }

    fn remove(&mut self, id: u64)
        ensures
            final(self)@ == without_window(old(self)@, id),
    {
        if let Some(i) = self.find(id) {
            let ghost before = self@;
            let _ = self.windows.remove(i);
            assert(self@.windows =~= before.windows.remove(i as int));
        }
    }

    fn push_close_now(&mut self, out: &mut Vec<Effect>, id: u64, keeps: bool)
        ensures
            final(self)@ == without_window(old(self)@, id),
            effect_views(final(out)@) == effect_views(old(out)@) + close_window_now(
                old(self)@,
                id,
                keeps,
            ),
    {
        let ghost start = effect_views(out@);
        let ghost v = self@;
        if keeps && self.find(id).is_some() {
            push_effect(out, Effect::DetachOnClose { window: id });
        }
        push_effect(out, Effect::RemoveWindow { window: id });
        push_effect(out, Effect::ClearQuitDetaching);
        self.remove(id);
        if self.windows.len() == 0 && (!self.settings.outlives_windows
            || !self.settings.confirm_before_quit) {
            push_effect(out, Effect::ExitLoop);
        }
        assert(effect_views(out@) =~= start + close_window_now(v, id, keeps));
    }

    fn push_teardown(&mut self, out: &mut Vec<Effect>, id: u64, keeps: bool, consented: bool)
        ensures
            final(self)@ == without_window(old(self)@, id),
            effect_views(final(out)@) == effect_views(old(out)@) + teardown(
                old(self)@,
                id,
                keeps,
                consented,
            ),
    {
        let ghost start = effect_views(out@);
        let ghost v = self@;
        let slot = self.session_of(id);
        self.push_close_now(out, id, keeps);
        if !keeps && (self.settings.restore.enabled() || consented) {
            self.push_mirror(out, &slot, id, DaemonCheck::AssumeAlive, true);
        }
        assert(effect_views(out@) =~= start + teardown(v, id, keeps, consented));
    }

    /// Settles the session of a closing window: true where it asks, and the
    /// close waits for the answer.
    fn push_prompt_or_save(&mut self, out: &mut Vec<Effect>, id: u64, keeps: bool) -> (asked: bool)
        ensures
            asked == close_asks(old(self)@, id),
            asked ==> final(self)@ == (AppView {
                pending: bound(old(self)@.pending, id, keeps),
                ..old(self)@
            }) && effect_views(final(out)@) == effect_views(old(out)@) + seq![
                EffectView::PromptSaveOnExit { window: id },
            ],
            !asked ==> final(self)@ == old(self)@ && effect_views(final(out)@) == effect_views(
                old(out)@,
            ) + if close_saves(old(self)@, id) {
                seq![save_effect(old(self)@, slot_of(old(self)@, id), Some(id))]
            } else {
                Seq::empty()
            },
    {
        let ghost start = effect_views(out@);
        assert(start + Seq::<EffectView>::empty() =~= start);
        let slot = self.session_of(id);
        let found = self.find(id);
        if let Some(i) = found {
            assert(self@.windows[i as int] == self.windows@[i as int]@);
            if self.windows[i].ephemeral {
                return false;
            }
        }
        match close_disposition(slot.is_some(), self.settings.restore) {
            CloseDisposition::Save => {
                self.push_save(out, &slot, Some(id));
                false
            },
            CloseDisposition::Prompt => {
                if found.is_none() {
                    return false;
                }
                push_effect(out, Effect::PromptSaveOnExit { window: id });
                self.pending.insert(id, keeps);
                true
            },
            CloseDisposition::Nothing => false,
        }
    }

    fn push_closing(&mut self, out: &mut Vec<Effect>, id: u64, keeps: bool)
        ensures
            ({
                let (after, effects) = closing(old(self)@, id, keeps);
                &&& final(self)@ == after
                &&& effect_views(final(out)@) == effect_views(old(out)@) + effects
            }),
    {
        let ghost start = effect_views(out@);
        let ghost v = self@;
        if !self.push_prompt_or_save(out, id, keeps) {
            self.push_teardown(out, id, keeps, false);
        }
        assert(effect_views(out@) =~= start + closing(v, id, keeps).1);
    }

    /// The last tab of a window was closed. `busy` tells whether a pane behind a
    /// daemon is at work.
    pub fn close_window(&mut self, id: u64, busy: bool) -> (effects: Vec<Effect>)
        ensures
            (final(self)@, effect_views(effects@)) == on_close_window(old(self)@, id, busy),
    {
        let ghost v = self@;
        let mut out: Vec<Effect> = Vec::new();
        assert(effect_views(out@) =~= Seq::<EffectView>::empty());
        if busy {
            let slot = self.session_of(id);
            push_effect(&mut out, Effect::Pin { slot, window: id });
        }
        self.push_closing(&mut out, id, busy);
        assert(effect_views(out@) =~= on_close_window(v, id, busy).1);
        out
    }

    /// The close button of a window was pressed.
    pub fn close_requested(&mut self, id: u64) -> (effects: Vec<Effect>)
        ensures
            (final(self)@, effect_views(effects@)) == on_close_requested(old(self)@, id),
    {
        let ghost v = self@;
        let mut out: Vec<Effect> = Vec::new();
        assert(effect_views(out@) =~= Seq::<EffectView>::empty());
        if self.find(id).is_none() {
            return out;
        }
        if self.settings.confirm_before_quit && !self.settings.platform_confirms_close {
            push_effect(&mut out, Effect::ConfirmQuit { window: id });
        } else {
            self.push_closing(&mut out, id, true);
        }
        assert(effect_views(out@) =~= on_close_requested(v, id).1);
        out
    }

    /// A shell ended. `last` tells whether its window goes with it; `emptied`,
    /// looked up where it does not, whether the window has no tab left after all.
    pub fn close_terminal(&mut self, id: u64, route: usize, last: bool, emptied: bool) -> (effects:
        Vec<Effect>)
        ensures
            (final(self)@, effect_views(effects@)) == on_close_terminal(
                old(self)@,
                id,
                route,
                last,
                emptied,
            ),
    {
        let ghost v = self@;
        let mut out: Vec<Effect> = Vec::new();
        assert(effect_views(out@) =~= Seq::<EffectView>::empty());
        if self.find(id).is_none() {
            return out;
        }
        push_effect(&mut out, Effect::DropRoute { route });
        if last {
            if !self.push_prompt_or_save(&mut out, id, false) {
                push_effect(&mut out, Effect::Unschedule { route });
                self.push_teardown(&mut out, id, false, false);
            }
        } else if emptied {
            push_effect(&mut out, Effect::Unschedule { route });
            self.push_teardown(&mut out, id, false, false);
        } else {
            push_effect(&mut out, Effect::TabClosed { window: id });
        }
        assert(effect_views(out@) =~= on_close_terminal(v, id, route, last, emptied).1);
        out
    }

    /// The question of a closing window was answered.
    pub fn close_window_confirmed(&mut self, id: u64, save: bool) -> (effects: Vec<Effect>)
        ensures
            (final(self)@, effect_views(effects@)) == on_close_confirmed(old(self)@, id, save),
    {
        let ghost v = self@;
        let mut out: Vec<Effect> = Vec::new();
        assert(effect_views(out@) =~= Seq::<EffectView>::empty());
        let slot = self.session_of(id);
        let keeps = match self.pending.remove(id) {
            Some(k) => k,
            None => true,
        };
        let ghost settled = self@;
        assert(settled =~= (AppView { pending: unbound(v.pending, id), ..v }));
        if save {
            self.push_save(&mut out, &slot, Some(id));
            self.push_teardown(&mut out, id, keeps, true);
        } else {
            let mut dying: Vec<u64> = Vec::new();
            dying.push(id);
            assert(dying@ =~= seq![id]);
            self.push_decline(&mut out, &slot, dying);
            self.push_close_now(&mut out, id, true);
        }
        assert(effect_views(out@) =~= on_close_confirmed(v, id, save).1);
        out
    }

    /// The session of a window is saved: `explicit` where the user asked for it,
    /// otherwise after a change.
    pub fn save_session(&self, id: u64, explicit: bool) -> (effects: Vec<Effect>)
        ensures
            effect_views(effects@) == on_save_session(self@, id, explicit),
    {
        let mut out: Vec<Effect> = Vec::new();
        assert(effect_views(out@) =~= Seq::<EffectView>::empty());
        let slot = self.session_of(id);
        let check = if explicit {
            DaemonCheck::Probe
        } else {
            DaemonCheck::AssumeAlive
        };
        self.push_mirror(&mut out, &slot, id, check, !explicit);
        if self.find(id).is_some() {
            push_effect(&mut out, Effect::Notice { window: id });
        }
        assert(effect_views(out@) =~= on_save_session(self@, id, explicit));
        out
    }

    /// A window asks for another one.
    pub fn create_window(&self, id: u64) -> (effects: Vec<Effect>)
        ensures
            effect_views(effects@) == on_create_window(self@, id),
    {
        let mut out: Vec<Effect> = Vec::new();
        assert(effect_views(out@) =~= Seq::<EffectView>::empty());
        let session = self.session_of(id);
        push_effect(&mut out, Effect::OpenWindow { session });
        assert(effect_views(out@) =~= on_create_window(self@, id));
        out
    }

    /// Binds a window to a name.
    pub fn bind_session_name(&mut self, id: u64, name: Option<String>)
        ensures
            final(self)@ == renamed(old(self)@, id, opt_text(name)),
    {
        if let Some(i) = self.find(id) {
            let ghost before = self@;
            assert(before.windows[i as int] == self.windows@[i as int]@);
            let mut w = self.windows.remove(i);
            w.session_name = name;
            self.windows.insert(i, w);
            assert(self@.windows =~= before.windows.update(
                i as int,
                OpenView { session_name: opt_text(name), ..before.windows[i as int] },
            ));
        }
    }

    /// The session of a window is saved under a name, once that was accepted.
    pub fn save_session_as(&mut self, id: u64, name: Option<String>) -> (effects: Vec<Effect>)
        ensures
            (final(self)@, effect_views(effects@)) == on_save_as(old(self)@, id, opt_text(name)),
    {
        let ghost v = self@;
        let mut out: Vec<Effect> = Vec::new();
        assert(effect_views(out@) =~= Seq::<EffectView>::empty());
        let open = self.find(id).is_some();
        if name.is_some() {
            let copy = copy_text(&name);
            self.bind_session_name(id, copy);
            if open {
                self.push_mirror(&mut out, &name, id, DaemonCheck::Probe, false);
            }
        }
        if open {
            push_effect(&mut out, Effect::Notice { window: id });
        }
        assert(effect_views(out@) =~= on_save_as(v, id, opt_text(name)).1);
        out
    }

    /// Names the windows that have no name yet.
    pub fn name_unnamed(&mut self, name: &String)
        ensures
            final(self)@ == (AppView {
                windows: Seq::new(
                    old(self)@.windows.len(),
                    |i: int|
                        if old(self)@.windows[i].session_name is None {
                            OpenView { session_name: Some(name@), ..old(self)@.windows[i] }
                        } else {
                            old(self)@.windows[i]
                        },
                ),
                ..old(self)@
            }),
    {
        let ghost before = self@;
        let mut i: usize = 0;
        while i < self.windows.len()
            invariant
                i <= self.windows@.len(),
                self@.windows.len() == before.windows.len(),
                self@.pending == before.pending,
                self@.settings == before.settings,
                forall|j: int|
                    i <= j < before.windows.len() ==> #[trigger] self@.windows[j]
                        == before.windows[j],
                forall|j: int|
                    0 <= j < i ==> #[trigger] self@.windows[j]
                        == if before.windows[j].session_name is None {
                        OpenView { session_name: Some(name@), ..before.windows[j] }
                    } else {
                        before.windows[j]
                    },
            decreases self.windows@.len() - i,
        {
            let ghost prior = self@;
            assert(prior.windows[i as int] == self.windows@[i as int]@);
            if self.windows[i].session_name.is_none() {
                let mut w = self.windows.remove(i);
                w.session_name = Some(name.clone());
                self.windows.insert(i, w);
                assert(self@.windows =~= prior.windows.update(i as int, w@));
            }
            i = i + 1;
        }
        assert(self@.windows =~= Seq::new(
            before.windows.len(),
            |i: int|
                if before.windows[i].session_name is None {
                    OpenView { session_name: Some(name@), ..before.windows[i] }
                } else {
                    before.windows[i]
                },
        ));
    }
}

} // verus!
