//! The program as a state machine: what it holds of each window, and what it has
//! done by the windowing system, the terminals and the timers.
use crate::application::{effect_views, AppView, Application, Effect, EffectView};
use crate::events::{QueryStatus, RenderSettings, WindowFlags};
use crate::input::{ClickState, Clicks, Held, MouseButton, Pointer, PressTarget};
use vstd::prelude::*;

verus! {

#[derive(Clone, Copy, Debug, PartialEq, Eq, Structural)]
pub enum Theme {
    Light,
    Dark,
}

/// What the settings say of events.
#[derive(Clone, Copy, Debug, PartialEq, Eq, Structural)]
pub struct DeskSettings {
    pub render: RenderSettings,
    pub hide_cursor_when_typing: bool,
    pub copy_on_select: bool,
    pub audio_bell: bool,
    pub open_config_with_split: bool,
    /// The theme that is shown whatever the system's is.
    pub force_theme: Option<Theme>,
}

/// What is held of a window.
#[derive(Clone, Copy, Debug, PartialEq, Eq, Structural)]
pub struct Seat {
    pub flags: WindowFlags,
    pub clicks: Clicks,
    pub held: Held,
    /// Whether the pointer is on the border between two panes.
    pub on_border: bool,
}

/// What is held of a window that was just made.
pub open spec fn fresh_seat() -> Seat {
    Seat {
        flags: WindowFlags {
            is_focused: false,
            is_occluded: false,
            needs_render_after_occlusion: false,
        },
        clicks: Clicks { state: ClickState::Still, last_button: MouseButton::Left },
        held: Held { left: false, middle: false, right: false },
        on_border: false,
    }
}

impl Seat {
    pub fn new() -> (seat: Seat)
        ensures
            seat == fresh_seat(),
    {
        Seat {
            flags: WindowFlags {
                is_focused: false,
                is_occluded: false,
                needs_render_after_occlusion: false,
            },
            clicks: Clicks { state: ClickState::Still, last_button: MouseButton::Left },
            held: Held { left: false, middle: false, right: false },
            on_border: false,
        }
    }
}

/// What a timer is for.
#[derive(Clone, Copy, Debug, PartialEq, Eq, Structural)]
pub enum Timer {
    UpdateConfig,
    /// A frame that was put off.
    RenderRoute,
    Render,
    ScheduledRenderRoute,
    CursorBlinking,
    ClearSessionNotice,
    DisarmCloseButton,
    SelectionScrolling,
}

/// What is done. Where nothing else is said it is done to the window, or to the
/// terminal of the window, that the event was for; a terminal that the window
/// does not show is passed over.
#[derive(Clone, Copy, Debug, PartialEq, Eq, Structural)]
pub enum Action {
    Redraw,
    RedrawOverlay,
    /// A frame of the current terminal is asked for.
    RequestRender,
    MarkDirty { route: usize },
    MarkCurrentDirty,
    /// Only the cursor of the current terminal changed.
    DamageCursor,
    Schedule { timer: Timer, route: usize, millis: u64, repeat: bool },
    Unschedule { timer: Timer, route: usize },
    /// The images of a terminal are stored and dropped.
    StoreImages { route: usize },
    ReportError,
    /// Every window shows what is wrong with the settings, and is drawn.
    ReportSettingsError,
    /// Every window shows what is wrong with the rules, and is drawn.
    ReportRulesError,
    LoadFonts,
    /// The new settings are taken, with the rules as they were where asked; every
    /// window follows them, drops the errors it showed, and is drawn.
    ApplySettings { fonts: bool, keep_rules: bool },
    RestoreNamed,
    RestoreFullSession,
    ShowRemotePanes,
    HideNotice,
    InstallGlyphs { route: usize },
    AnswerGlyph { route: usize, status: QueryStatus },
    SetProgress,
    ScrollSelection,
    RingBell,
    Notify { urgency: u8 },
    RunProgram,
    StartCoprocess { route: usize, secs: u64 },
    SetTitle,
    SetSubtitle,
    UpdateTitles,
    ResetMouse,
    ScrollDisplay,
    /// What the clipboard holds is sent to a terminal.
    SendClipboard { route: usize },
    StoreClipboard,
    SendBytes { route: usize },
    SendTextAreaSize { route: usize },
    SendColor { route: usize, own: bool },
    SetBackground { route: usize },
    CreateNativeTab,
    OpenConfigSplit,
    OpenConfigWindow,
    SelectNativeTab,
    HideApplication,
    HideOthers,
    SetMinimized(bool),
    SetFullscreen(bool),
    SetMaximized(bool),
    ApplyTheme(Theme),
    SetModifiers,
    ShowPointer(bool),
    Point(Pointer),
    TakeChromePress,
    DragWindow,
    CancelDrags,
    /// A press is offered to a target; whether it took it is answered.
    Offer(PressTarget),
    ReportButton { code: u8, pressed: bool },
    LeftClick,
    Bindings,
    DropTab,
    DragTab,
    ReleaseScrollbar,
    DragScrollbar,
    ReleaseBorder,
    ResizeBorder,
    /// The hint under the pointer is followed, else what was selected is copied:
    /// to the primary buffer, and to the clipboard where asked.
    FollowHintOrCopy { hint: bool, primary: bool, clipboard: bool },
    UpdateSelection,
    ClearHyperlink,
    ScrollWheel,
    NoteTyping,
    ProcessKey,
    Paste { bracketed: bool },
    SetPreedit(bool),
    SetIme(bool),
    Touch,
    FocusChanged(bool),
    Resize,
    SetScale,
    BeginRender,
    RenderWelcome,
    RenderTerminal,
    /// Events are polled rather than waited for.
    Poll(bool),
}

/// What an event leads to.
#[derive(Debug)]
pub struct Reaction {
    /// What is held of the window afterwards.
    pub seat: Option<Seat>,
    /// What is done to sessions and windows, first.
    pub effects: Vec<Effect>,
    pub actions: Vec<Action>,
}

#[verifier::ext_equal]
pub struct ReactionView {
    pub seat: Option<Seat>,
    pub effects: Seq<EffectView>,
    pub actions: Seq<Action>,
}

impl View for Reaction {
    type V = ReactionView;

    open spec fn view(&self) -> ReactionView {
        ReactionView {
            seat: self.seat,
            effects: effect_views(self.effects@),
            actions: self.actions@,
        }
    }
}

pub open spec fn acts(seat: Option<Seat>, actions: Seq<Action>) -> ReactionView {
    ReactionView { seat, effects: Seq::empty(), actions }
}

pub open spec fn acts_on_sessions(
    seat: Option<Seat>,
    effects: Seq<EffectView>,
    actions: Seq<Action>,
) -> ReactionView {
    ReactionView { seat, effects, actions }
}

/// One action where something holds, else none.
pub open spec fn only_if(on: bool, action: Action) -> Seq<Action> {
    if on {
        seq![action]
    } else {
        Seq::empty()
    }
}

/// The program.
pub struct Desk {
    pub app: Application,
    pub settings: DeskSettings,
}

#[verifier::ext_equal]
pub struct DeskView {
    pub app: AppView,
    pub settings: DeskSettings,
}

impl View for Desk {
    type V = DeskView;

    open spec fn view(&self) -> DeskView {
        DeskView { app: self.app@, settings: self.settings }
    }
}

impl Reaction {
    /// Nothing is done.
    pub(crate) fn quiet(seat: Option<Seat>) -> (reaction: Reaction)
        ensures
            reaction@ == acts(seat, Seq::empty()),
    {
        let reaction = Reaction { seat, effects: Vec::new(), actions: Vec::new() };
        assert(reaction@.effects =~= Seq::empty());
        assert(reaction@.actions =~= Seq::empty());
        reaction
    }

    pub(crate) fn of(seat: Option<Seat>, actions: Vec<Action>) -> (reaction: Reaction)
        ensures
            reaction@ == acts(seat, actions@),
    {
        let reaction = Reaction { seat, effects: Vec::new(), actions };
        assert(reaction@.effects =~= Seq::empty());
        reaction
    }

    pub(crate) fn sessions(seat: Option<Seat>, effects: Vec<Effect>) -> (reaction: Reaction)
        ensures
            reaction@ == acts_on_sessions(seat, effect_views(effects@), Seq::empty()),
    {
        let reaction = Reaction { seat, effects, actions: Vec::new() };
        assert(reaction@.actions =~= Seq::empty());
        reaction
    }
}

pub(crate) fn one(a: Action) -> (actions: Vec<Action>)
    ensures
        actions@ == seq![a],
{
    let mut actions: Vec<Action> = Vec::new();
    actions.push(a);
    assert(actions@ =~= seq![a]);
    actions
}

pub(crate) fn two(a: Action, b: Action) -> (actions: Vec<Action>)
    ensures
        actions@ == seq![a, b],
{
    let mut actions: Vec<Action> = one(a);
    actions.push(b);
    assert(actions@ =~= seq![a, b]);
    actions
}

pub(crate) fn three(a: Action, b: Action, c: Action) -> (actions: Vec<Action>)
    ensures
        actions@ == seq![a, b, c],
{
    let mut actions: Vec<Action> = two(a, b);
    actions.push(c);
    assert(actions@ =~= seq![a, b, c]);
    actions
}

/// The actions followed by one more where something holds.
pub(crate) fn push_if(actions: &mut Vec<Action>, on: bool, action: Action)
    ensures
        final(actions)@ == old(actions)@ + only_if(on, action),
{
    if on {
        actions.push(action);
        assert(actions@ =~= old(actions)@ + seq![action]);
    } else {
        assert(actions@ =~= old(actions)@ + Seq::<Action>::empty());
    }
}

} // verus!
