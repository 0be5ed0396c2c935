//! What the program does on what a window, the mouse and the keyboard tell it.
use crate::application::on_close_requested;
use crate::desk::{
    acts, acts_on_sessions, one, only_if, push_if, two, Action, Desk, DeskSettings, DeskView,
    Reaction, ReactionView, Seat, Theme, Timer,
};
use crate::events::{WindowFlags, SELECTION_SCROLL_MILLIS};
use crate::text::chars_of;
use vstd::prelude::*;
use vstd::string::StringExecFns;

verus! {

/// The kinds of events of a window.
#[derive(Clone, Copy, Debug, PartialEq, Eq, Structural)]
pub enum WindowEventKind {
    KeyboardInput { is_synthetic: bool },
    ActivationTokenDone,
    DoubleTapGesture,
    TouchpadPressure,
    RotationGesture,
    CursorEntered,
    PinchGesture,
    AxisMotion,
    PanGesture,
    HoveredFileCancelled,
    Destroyed,
    HoveredFile,
    Moved,
    /// Any other.
    Other,
}

/// Whether an event means nothing to the program.
pub fn skip_window_event(kind: WindowEventKind) -> (skip: bool)
    ensures
        skip == !(kind == WindowEventKind::Other || kind == (WindowEventKind::KeyboardInput {
            is_synthetic: false,
        })),
{
    match kind {
        WindowEventKind::KeyboardInput { is_synthetic } => is_synthetic,
        WindowEventKind::Other => false,
        _ => true,
    }
}

/// What stands over a terminal.
#[derive(Clone, Copy, Debug, PartialEq, Eq, Structural)]
pub struct Overlays {
    /// Whether the terminal is shown at all.
    pub terminal: bool,
    pub confirm_quit: bool,
    pub session_prompt: bool,
    pub confirm_close: bool,
}

/// Whether the mouse does not reach the terminal.
pub open spec fn is_blocked(o: Overlays) -> bool {
    !o.terminal || o.confirm_quit || o.session_prompt || o.confirm_close
}

fn mouse_is_blocked(o: Overlays) -> (blocked: bool)
    ensures
        blocked == is_blocked(o),
{
    !o.terminal || o.confirm_quit || o.session_prompt || o.confirm_close
}

#[derive(Clone, Copy, Debug, PartialEq, Eq, Structural)]
pub enum MouseButton {
    Left,
    Middle,
    Right,
    Back,
    Forward,
    Other(u16),
}

#[derive(Clone, Copy, Debug, PartialEq, Eq, Structural)]
pub enum ClickState {
    Still,
    Click,
    DoubleClick,
    TripleClick,
}

/// The clicks so far.
#[derive(Clone, Copy, Debug, PartialEq, Eq, Structural)]
pub struct Clicks {
    pub state: ClickState,
    pub last_button: MouseButton,
}

/// The clicks after one more. `quick` tells whether it followed the last one
/// soon enough. Another button starts anew.
pub open spec fn clicked(c: Clicks, button: MouseButton, quick: bool) -> Clicks {
    Clicks {
        state: if button != c.last_button {
            ClickState::Click
        } else if c.state == ClickState::Click && quick {
            ClickState::DoubleClick
        } else if c.state == ClickState::DoubleClick && quick {
            ClickState::TripleClick
        } else {
            ClickState::Click
        },
        last_button: button,
    }
}

impl Clicks {
    fn press(&mut self, button: MouseButton, quick: bool)
        ensures
            *final(self) == clicked(*old(self), button, quick),
    {
        if button != self.last_button {
            self.last_button = button;
            self.state = ClickState::Click;
        } else {
            self.state =
            match self.state {
                ClickState::Click => if quick {
                    ClickState::DoubleClick
                } else {
                    ClickState::Click
                },
                ClickState::DoubleClick => if quick {
                    ClickState::TripleClick
                } else {
                    ClickState::Click
                },
                _ => ClickState::Click,
            };
        }
    }
}

/// Three quick clicks of a button make a triple click, and the fourth starts
/// anew.
pub proof fn law_clicks_count_to_three(c: Clicks, button: MouseButton)
    requires
        c.state == ClickState::Still || c.last_button != button,
    ensures
        ({
            let first = clicked(c, button, true);
            let second = clicked(first, button, true);
            let third = clicked(second, button, true);
            let fourth = clicked(third, button, true);
            &&& first.state == ClickState::Click
            &&& second.state == ClickState::DoubleClick
            &&& third.state == ClickState::TripleClick
            &&& fourth.state == ClickState::Click
        }),
{
}

/// Which buttons of the mouse are held.
#[derive(Clone, Copy, Debug, PartialEq, Eq, Structural)]
pub struct Held {
    pub left: bool,
    pub middle: bool,
    pub right: bool,
}

/// The buttons held after one was pressed or released.
pub open spec fn holding(h: Held, button: MouseButton, pressed: bool) -> Held {
    match button {
        MouseButton::Left => Held { left: pressed, ..h },
        MouseButton::Middle => Held { middle: pressed, ..h },
        MouseButton::Right => Held { right: pressed, ..h },
        _ => h,
    }
}

fn hold(h: Held, button: MouseButton, pressed: bool) -> (after: Held)
    ensures
        after == holding(h, button, pressed),
{
    match button {
        MouseButton::Left => Held { left: pressed, ..h },
        MouseButton::Middle => Held { middle: pressed, ..h },
        MouseButton::Right => Held { right: pressed, ..h },
        _ => h,
    }
}

/// The code of a button in a report to a terminal. Others cannot be reported.
pub open spec fn code_of(button: MouseButton) -> Option<u8> {
    match button {
        MouseButton::Left => Some(0u8),
        MouseButton::Middle => Some(1u8),
        MouseButton::Right => Some(2u8),
        _ => None,
    }
}

fn button_code(button: MouseButton) -> (code: Option<u8>)
    ensures
        code == code_of(button),
{
    match button {
        MouseButton::Left => Some(0),
        MouseButton::Middle => Some(1),
        MouseButton::Right => Some(2),
        _ => None,
    }
}

/// The shape of the pointer.
#[derive(Clone, Copy, Debug, PartialEq, Eq, Structural)]
pub enum Pointer {
    Default,
    Text,
    Hand,
    /// Over a border that moves to the side.
    Column,
    /// Over a border that moves up and down.
    Row,
}

// ---------------------------------------------------------------------------
// A press.

/// What a press of the mouse is offered to, in this order.
#[derive(Clone, Copy, Debug, PartialEq, Eq, Structural)]
pub enum PressTarget {
    Border,
    Assistant,
    Palette,
    Search,
    Island,
    Scrollbar,
    /// Another pane than has the keyboard.
    Panel,
    Hyperlink,
}

/// What a press is offered to first.
pub open spec fn first_target(button: MouseButton) -> PressTarget {
    match button {
        MouseButton::Left => PressTarget::Border,
        MouseButton::Right => PressTarget::Island,
        _ => PressTarget::Panel,
    }
}

fn press_first(button: MouseButton) -> (target: PressTarget)
    ensures
        target == first_target(button),
{
    match button {
        MouseButton::Left => PressTarget::Border,
        MouseButton::Right => PressTarget::Island,
        _ => PressTarget::Panel,
    }
}

/// What is done where a target took a press.
pub open spec fn taken_by(target: PressTarget) -> Seq<Action> {
    match target {
        PressTarget::Border | PressTarget::Hyperlink => Seq::empty(),
        PressTarget::Panel => seq![Action::Redraw, Action::Bindings],
        _ => seq![Action::Redraw],
    }
}

/// What is done where a target did not take a press. `bar` tells whether the
/// window can be dragged there, `reports` whether the program in the terminal
/// wants the mouse.
pub open spec fn passed_by(
    seat: Seat,
    button: MouseButton,
    target: PressTarget,
    bar: bool,
    reports: bool,
) -> ReactionView {
    match target {
        PressTarget::Border => acts(Some(seat), seq![Action::Offer(PressTarget::Assistant)]),
        PressTarget::Assistant => acts(Some(seat), seq![Action::Offer(PressTarget::Palette)]),
        PressTarget::Palette => acts(Some(seat), seq![Action::Offer(PressTarget::Search)]),
        PressTarget::Search => acts(Some(seat), seq![Action::Offer(PressTarget::Island)]),
        PressTarget::Island => if button == MouseButton::Left {
            acts(
                Some(seat),
                only_if(bar, Action::DragWindow) + seq![Action::Offer(PressTarget::Scrollbar)],
            )
        } else {
            acts(Some(seat), seq![Action::Offer(PressTarget::Panel)])
        },
        PressTarget::Scrollbar => acts(Some(seat), seq![Action::Offer(PressTarget::Panel)]),
        PressTarget::Panel => if reports {
            acts(
                Some(Seat { clicks: Clicks { state: ClickState::Still, ..seat.clicks }, ..seat }),
                match code_of(button) {
                    Some(code) => seq![
                        Action::ReportButton { code, pressed: true },
                        Action::Bindings,
                        Action::Bindings,
                    ],
                    None => Seq::empty(),
                },
            )
        } else {
            acts(Some(seat), seq![Action::Offer(PressTarget::Hyperlink)])
        },
        PressTarget::Hyperlink => acts(
            Some(seat),
            only_if(button == MouseButton::Left, Action::LeftClick) + seq![
                Action::Redraw,
                Action::Bindings,
            ],
        ),
    }
}

/// What follows where a press was offered to a target.
pub fn offered(
    seat: Seat,
    button: MouseButton,
    target: PressTarget,
    taken: bool,
    bar: bool,
    reports: bool,
) -> (reaction: Reaction)
    ensures
        reaction@ == if taken {
            acts(Some(seat), taken_by(target))
        } else {
            passed_by(seat, button, target, bar, reports)
        },
{
    if taken {
        return match target {
            PressTarget::Border | PressTarget::Hyperlink => Reaction::quiet(Some(seat)),
            PressTarget::Panel => Reaction::of(Some(seat), two(Action::Redraw, Action::Bindings)),
            _ => Reaction::of(Some(seat), one(Action::Redraw)),
        };
    }
    match target {
        PressTarget::Border => Reaction::of(
            Some(seat),
            one(Action::Offer(PressTarget::Assistant)),
        ),
        PressTarget::Assistant => Reaction::of(
            Some(seat),
            one(Action::Offer(PressTarget::Palette)),
        ),
        PressTarget::Palette => Reaction::of(Some(seat), one(Action::Offer(PressTarget::Search))),
        PressTarget::Search => Reaction::of(Some(seat), one(Action::Offer(PressTarget::Island))),
        PressTarget::Island => if button == MouseButton::Left {
            let mut actions: Vec<Action> = Vec::new();
            push_if(&mut actions, bar, Action::DragWindow);
            push_if(&mut actions, true, Action::Offer(PressTarget::Scrollbar));
            assert(actions@ =~= only_if(bar, Action::DragWindow) + seq![
                Action::Offer(PressTarget::Scrollbar),
            ]);
            Reaction::of(Some(seat), actions)
        } else {
            Reaction::of(Some(seat), one(Action::Offer(PressTarget::Panel)))
        },
        PressTarget::Scrollbar => Reaction::of(
            Some(seat),
            one(Action::Offer(PressTarget::Panel)),
        ),
        PressTarget::Panel => if reports {
            let after = Seat {
                clicks: Clicks { state: ClickState::Still, ..seat.clicks },
                ..seat
            };
            match button_code(button) {
                Some(code) => {
                    let mut actions: Vec<Action> = two(
                        Action::ReportButton { code, pressed: true },
                        Action::Bindings,
                    );
                    actions.push(Action::Bindings);
                    assert(actions@ =~= seq![
                        Action::ReportButton { code, pressed: true },
                        Action::Bindings,
                        Action::Bindings,
                    ]);
                    Reaction::of(Some(after), actions)
                },
                None => Reaction::quiet(Some(after)),
            }
        } else {
            Reaction::of(Some(seat), one(Action::Offer(PressTarget::Hyperlink)))
        },
        PressTarget::Hyperlink => {
            let mut actions: Vec<Action> = Vec::new();
            push_if(&mut actions, button == MouseButton::Left, Action::LeftClick);
            push_if(&mut actions, true, Action::Redraw);
            push_if(&mut actions, true, Action::Bindings);
            assert(actions@ =~= only_if(button == MouseButton::Left, Action::LeftClick) + seq![
                Action::Redraw,
                Action::Bindings,
            ]);
            Reaction::of(Some(seat), actions)
        },
    }
}

/// How far along a press is.
pub open spec fn rank(target: PressTarget) -> int {
    match target {
        PressTarget::Border => 0,
        PressTarget::Assistant => 1,
        PressTarget::Palette => 2,
        PressTarget::Search => 3,
        PressTarget::Island => 4,
        PressTarget::Scrollbar => 5,
        PressTarget::Panel => 6,
        PressTarget::Hyperlink => 7,
    }
}

/// A press is offered to no target twice, and so comes to an end: what it is
/// offered to next stands further on.
pub proof fn law_a_press_comes_to_an_end(
    seat: Seat,
    button: MouseButton,
    target: PressTarget,
    bar: bool,
    reports: bool,
    i: int,
)
    requires
        0 <= i < passed_by(seat, button, target, bar, reports).actions.len(),
    ensures
        passed_by(seat, button, target, bar, reports).actions[i] matches Action::Offer(next)
            ==> rank(next) > rank(target),
{
}

// ---------------------------------------------------------------------------
// A release.

/// How things stand as a button of the mouse is pressed or released.
#[derive(Clone, Copy, Debug, PartialEq, Eq, Structural)]
pub struct ButtonFacts {
    pub overlays: Overlays,
    /// Whether the window can be dragged where the pointer is.
    pub bar: bool,
    /// Whether the press followed the last one soon enough to count with it.
    pub quick: bool,
    /// Whether a tab that was dragged was put down.
    pub tab_dropped: bool,
    pub dragging_scrollbar: bool,
    pub resizing: bool,
    /// Whether the program in the terminal wants the mouse: it asked for it, and
    /// shift is not held.
    pub reports: bool,
    /// The current terminal.
    pub route: usize,
}

/// What a release of the mouse does: the first that is due of putting a tab
/// down, letting the scrollbar or a border go, a report, and a copy.
pub open spec fn release_actions(
    settings: DeskSettings,
    button: MouseButton,
    f: ButtonFacts,
) -> Seq<Action> {
    let main = button == MouseButton::Left || button == MouseButton::Right;
    only_if(
        main,
        Action::Unschedule { timer: Timer::SelectionScrolling, route: f.route },
    ) + if button == MouseButton::Left && f.tab_dropped {
        seq![Action::Redraw]
    } else if f.dragging_scrollbar {
        seq![Action::ReleaseScrollbar, Action::Redraw]
    } else if f.resizing {
        seq![Action::ReleaseBorder, Action::Point(Pointer::Default)]
    } else if f.reports {
        match code_of(button) {
            Some(code) => seq![Action::ReportButton { code, pressed: false }],
            None => Seq::empty(),
        }
    } else {
        only_if(
            main,
            Action::FollowHintOrCopy {
                hint: button == MouseButton::Left,
                primary: true,
                clipboard: settings.copy_on_select,
            },
        )
    }
}

/// What a button of the mouse does.
pub open spec fn on_button(
    settings: DeskSettings,
    seat: Seat,
    button: MouseButton,
    pressed: bool,
    f: ButtonFacts,
) -> ReactionView {
    if is_blocked(f.overlays) {
        if pressed {
            acts(
                Some(seat),
                only_if(button == MouseButton::Left && f.bar, Action::DragWindow) + seq![
                    Action::TakeChromePress,
                ],
            )
        } else if button == MouseButton::Left {
            acts(
                Some(Seat { held: Held { left: false, ..seat.held }, ..seat }),
                seq![Action::CancelDrags],
            )
        } else {
            acts(Some(seat), Seq::empty())
        }
    } else {
        let shown = only_if(settings.hide_cursor_when_typing, Action::ShowPointer(true));
        let held = holding(seat.held, button, pressed);
        if pressed {
            acts(
                Some(Seat { held, clicks: clicked(seat.clicks, button, f.quick), ..seat }),
                shown + seq![Action::TakeChromePress, Action::Offer(first_target(button))],
            )
        } else {
            acts(Some(Seat { held, ..seat }), shown + release_actions(settings, button, f))
        }
    }
}

fn push_release(
    actions: &mut Vec<Action>,
    settings: &DeskSettings,
    button: MouseButton,
    f: ButtonFacts,
)
    ensures
        final(actions)@ == old(actions)@ + release_actions(*settings, button, f),
{
    let ghost before = actions@;
    let main = button == MouseButton::Left || button == MouseButton::Right;
    push_if(actions, main, Action::Unschedule { timer: Timer::SelectionScrolling, route: f.route });
    if button == MouseButton::Left && f.tab_dropped {
        actions.push(Action::Redraw);
    } else if f.dragging_scrollbar {
        actions.push(Action::ReleaseScrollbar);
        actions.push(Action::Redraw);
    } else if f.resizing {
        actions.push(Action::ReleaseBorder);
        actions.push(Action::Point(Pointer::Default));
    } else if f.reports {
        if let Some(code) = button_code(button) {
            actions.push(Action::ReportButton { code, pressed: false });
        }
    } else {
        push_if(
            actions,
            main,
            Action::FollowHintOrCopy {
                hint: button == MouseButton::Left,
                primary: true,
                clipboard: settings.copy_on_select,
            },
        );
    }
    assert(actions@ =~= before + release_actions(*settings, button, f));
}

fn mouse_input(
    settings: &DeskSettings,
    seat: Seat,
    button: MouseButton,
    pressed: bool,
    f: ButtonFacts,
) -> (reaction: Reaction)
    ensures
        reaction@ == on_button(*settings, seat, button, pressed, f),
{
    let mut actions: Vec<Action> = Vec::new();
    if mouse_is_blocked(f.overlays) {
        if pressed {
            push_if(&mut actions, button == MouseButton::Left && f.bar, Action::DragWindow);
            push_if(&mut actions, true, Action::TakeChromePress);
            assert(actions@ =~= only_if(button == MouseButton::Left && f.bar, Action::DragWindow)
                + seq![Action::TakeChromePress]);
            return Reaction::of(Some(seat), actions);
        }
        if button == MouseButton::Left {
            let after = Seat { held: Held { left: false, ..seat.held }, ..seat };
            return Reaction::of(Some(after), one(Action::CancelDrags));
        }
        return Reaction::quiet(Some(seat));
    }
    push_if(&mut actions, settings.hide_cursor_when_typing, Action::ShowPointer(true));
    let ghost shown = only_if(settings.hide_cursor_when_typing, Action::ShowPointer(true));
    assert(actions@ =~= shown);
    let held = hold(seat.held, button, pressed);
    if pressed {
        let mut clicks = seat.clicks;
        clicks.press(button, f.quick);
        actions.push(Action::TakeChromePress);
        actions.push(Action::Offer(press_first(button)));
        assert(actions@ =~= shown + seq![
            Action::TakeChromePress,
            Action::Offer(first_target(button)),
        ]);
        Reaction::of(Some(Seat { held, clicks, ..seat }), actions)
    } else {
        push_release(&mut actions, settings, button, f);
        Reaction::of(Some(Seat { held, ..seat }), actions)
    }
}

// ---------------------------------------------------------------------------
// A movement.

/// Which way a border between panes runs.
#[derive(Clone, Copy, Debug, PartialEq, Eq, Structural)]
pub enum Axis {
    Vertical,
    Horizontal,
}

/// Where the pointer is on what is shown over a terminal.
#[derive(Clone, Copy, Debug, PartialEq, Eq, Structural)]
pub struct Hover {
    /// Whether what is highlighted changed.
    pub changed: bool,
    pub on_button: bool,
}

/// How things stand as the mouse moves.
#[derive(Clone, Copy, Debug, PartialEq, Eq, Structural)]
pub struct Motion {
    pub overlays: Overlays,
    pub assistant: Option<Hover>,
    /// Where the palette is shown: whether what it highlights changed.
    pub palette: Option<bool>,
    /// Whether what the search highlights changed.
    pub search: bool,
    pub dragging_tab: bool,
    /// Whether a close button is highlighted anew.
    pub close_hover: bool,
    /// Whether the pointer is over the tabs.
    pub over_island: bool,
    pub dragging_scrollbar: bool,
    /// The border that is being moved.
    pub resizing: Option<Axis>,
    /// The border that the pointer is on.
    pub border: Option<Axis>,
    pub over_scrollbar: bool,
    pub has_selection: bool,
    /// Whether the pointer is where a selection scrolls.
    pub scroll_zone: bool,
    pub scroll_scheduled: bool,
    /// The current terminal.
    pub route: usize,
    /// Whether the pointer is over another cell, over the other half of a cell,
    /// or entered or left the text.
    pub cell: bool,
    pub side: bool,
    pub inside: bool,
    /// Whether the pointer is on something that can be followed.
    pub on_hint: bool,
    /// Whether a link is highlighted.
    pub has_link: bool,
    pub shift: bool,
    /// Whether the program in the terminal wants the mouse, its movements while
    /// a button is held, and all of them.
    pub mouse_mode: bool,
    pub drag_reports: bool,
    pub all_motion: bool,
}

pub open spec fn pointer_on(axis: Axis) -> Pointer {
    match axis {
        Axis::Vertical => Pointer::Column,
        Axis::Horizontal => Pointer::Row,
    }
}

fn border_pointer(axis: Axis) -> (pointer: Pointer)
    ensures
        pointer == pointer_on(axis),
{
    match axis {
        Axis::Vertical => Pointer::Column,
        Axis::Horizontal => Pointer::Row,
    }
}

/// Whether text is being selected: with a button held that the program in the
/// terminal does not want.
pub open spec fn selecting(h: Held, m: Motion) -> bool {
    (h.left || h.right) && (m.shift || !m.mouse_mode)
}

/// The code of a movement in a report to a terminal: that of the button held,
/// or of none where every movement is wanted.
pub open spec fn motion_code(h: Held, m: Motion) -> Option<u8> {
    if h.left {
        Some(32u8)
    } else if h.middle {
        Some(33u8)
    } else if h.right {
        Some(34u8)
    } else if m.all_motion {
        Some(35u8)
    } else {
        None
    }
}

/// What a movement over the text does.
pub open spec fn text_motion(h: Held, was_on_border: bool, m: Motion) -> Seq<Action> {
    only_if(
        m.has_selection && (h.left || h.right) && m.scroll_zone && !m.scroll_scheduled,
        Action::Schedule {
            timer: Timer::SelectionScrolling,
            route: m.route,
            millis: SELECTION_SCROLL_MILLIS,
            repeat: true,
        },
    ) + if !(m.cell || was_on_border || m.side || m.inside) {
        Seq::empty()
    } else if selecting(h, m) {
        seq![Action::UpdateSelection, Action::RequestRender]
    } else {
        (if m.on_hint {
            seq![Action::Point(Pointer::Hand), Action::RequestRender]
        } else {
            seq![
                Action::Point(
                    if !m.shift && m.mouse_mode {
                        Pointer::Default
                    } else {
                        Pointer::Text
                    },
                ),
            ] + if m.has_link {
                seq![Action::ClearHyperlink, Action::RequestRender]
            } else {
                Seq::empty()
            }
        }) + if m.cell && m.drag_reports {
            match motion_code(h, m) {
                Some(code) => seq![Action::ReportButton { code, pressed: true }],
                None => Seq::empty(),
            }
        } else {
            Seq::empty()
        }
    }
}

/// What a movement does first: what the search and the close buttons show.
pub open spec fn hovered(m: Motion) -> Seq<Action> {
    searched(m) + only_if(m.close_hover, Action::Redraw)
}

/// What a movement does to the search.
pub open spec fn searched(m: Motion) -> Seq<Action> {
    if m.search {
        seq![Action::MarkCurrentDirty, Action::Redraw]
    } else {
        Seq::empty()
    }
}

/// What a movement does where no question is shown, and neither the assistant
/// nor the palette.
pub open spec fn open_motion(seat: Seat, m: Motion) -> ReactionView {
    let before = hovered(m);
    let still = acts(Some(seat), Seq::empty());
    if seat.held.left && m.dragging_tab {
        ReactionView {
            actions: searched(m) + seq![
                Action::DragTab,
                Action::Point(Pointer::Default),
                Action::Redraw,
            ],
            ..still
        }
    } else if m.over_island {
        ReactionView { actions: before + seq![Action::Point(Pointer::Default)], ..still }
    } else if m.dragging_scrollbar {
        ReactionView {
            actions: before + seq![
                Action::DragScrollbar,
                Action::Point(Pointer::Default),
                Action::Redraw,
            ],
            ..still
        }
    } else {
        match (m.resizing, m.border) {
            (Some(axis), _) => ReactionView {
                actions: before + seq![
                    Action::ResizeBorder,
                    Action::Point(pointer_on(axis)),
                    Action::RequestRender,
                    Action::Redraw,
                ],
                ..still
            },
            (None, Some(axis)) => acts(
                Some(Seat { on_border: true, ..seat }),
                before + seq![Action::Point(pointer_on(axis))],
            ),
            (None, None) => if m.over_scrollbar {
                ReactionView { actions: before + seq![Action::Point(Pointer::Default)], ..still }
            } else {
                acts(
                    Some(Seat { on_border: false, ..seat }),
                    before + text_motion(seat.held, seat.on_border, m),
                )
            },
        }
    }
}

/// What a movement of the mouse does.
pub open spec fn on_motion(settings: DeskSettings, seat: Seat, m: Motion) -> ReactionView {
    let shown = only_if(settings.hide_cursor_when_typing, Action::ShowPointer(true));
    if is_blocked(m.overlays) {
        acts(Some(seat), shown + seq![Action::Point(Pointer::Default)])
    } else {
        match (m.assistant, m.palette) {
            (Some(Hover { changed, on_button }), _) => acts(
                Some(seat),
                shown + only_if(changed, Action::RedrawOverlay) + seq![
                    Action::Point(
                        if on_button {
                            Pointer::Hand
                        } else {
                            Pointer::Default
                        },
                    ),
                ],
            ),
            (None, Some(changed)) => acts(
                Some(seat),
                shown + only_if(changed, Action::RedrawOverlay) + seq![
                    Action::Point(Pointer::Default),
                ],
            ),
            (None, None) => {
                let r = open_motion(seat, m);
                ReactionView { actions: shown + r.actions, ..r }
            },
        }
    }
}

fn push_text_motion(actions: &mut Vec<Action>, h: Held, was_on_border: bool, m: &Motion)
    ensures
        final(actions)@ == old(actions)@ + text_motion(h, was_on_border, *m),
{
    let ghost before = actions@;
    push_if(
        actions,
        m.has_selection && (h.left || h.right) && m.scroll_zone && !m.scroll_scheduled,
        Action::Schedule {
            timer: Timer::SelectionScrolling,
            route: m.route,
            millis: SELECTION_SCROLL_MILLIS,
            repeat: true,
        },
    );
    if m.cell || was_on_border || m.side || m.inside {
        if (h.left || h.right) && (m.shift || !m.mouse_mode) {
            actions.push(Action::UpdateSelection);
            actions.push(Action::RequestRender);
        } else {
            if m.on_hint {
                actions.push(Action::Point(Pointer::Hand));
                actions.push(Action::RequestRender);
            } else {
                let shape = if !m.shift && m.mouse_mode {
                    Pointer::Default
                } else {
                    Pointer::Text
                };
                actions.push(Action::Point(shape));
                if m.has_link {
                    actions.push(Action::ClearHyperlink);
                    actions.push(Action::RequestRender);
                }
            }
            if m.cell && m.drag_reports {
                if h.left {
                    actions.push(Action::ReportButton { code: 32, pressed: true });
                } else if h.middle {
                    actions.push(Action::ReportButton { code: 33, pressed: true });
                } else if h.right {
                    actions.push(Action::ReportButton { code: 34, pressed: true });
                } else if m.all_motion {
                    actions.push(Action::ReportButton { code: 35, pressed: true });
                }
            }
        }
    }
    assert(actions@ =~= before + text_motion(h, was_on_border, *m));
}

fn push_searched(actions: &mut Vec<Action>, m: &Motion)
    ensures
        final(actions)@ == old(actions)@ + searched(*m),
{
    if m.search {
        actions.push(Action::MarkCurrentDirty);
        actions.push(Action::Redraw);
    }
    assert(actions@ =~= old(actions)@ + searched(*m));
}

fn push_three(actions: &mut Vec<Action>, a: Action, b: Action, c: Action)
    ensures
        final(actions)@ == old(actions)@ + seq![a, b, c],
{
    actions.push(a);
    actions.push(b);
    actions.push(c);
    assert(actions@ =~= old(actions)@ + seq![a, b, c]);
}

proof fn lemma_joined(a: Seq<Action>, b: Seq<Action>, c: Seq<Action>)
    ensures
        (a + b) + c == a + (b + c),
{
    assert((a + b) + c =~= a + (b + c));
}

#[verifier::rlimit(40)]
fn push_open_motion(actions: &mut Vec<Action>, seat: Seat, m: &Motion) -> (after: Seat)
    ensures
        final(actions)@ == old(actions)@ + open_motion(seat, *m).actions,
        Some(after) == open_motion(seat, *m).seat,
{
    let ghost start = actions@;
    let mut after = seat;
    push_searched(actions, m);
    if seat.held.left && m.dragging_tab {
        push_three(actions, Action::DragTab, Action::Point(Pointer::Default), Action::Redraw);
        proof {
            lemma_joined(
                start,
                searched(*m),
                seq![Action::DragTab, Action::Point(Pointer::Default), Action::Redraw],
            );
        }
        return after;
    }
    push_if(actions, m.close_hover, Action::Redraw);
    let ghost before = actions@;
    let ghost rest: Seq<Action> = Seq::empty();
    proof {
        lemma_joined(start, searched(*m), only_if(m.close_hover, Action::Redraw));
    }
    if m.over_island {
        push_if(actions, true, Action::Point(Pointer::Default));
        proof {
            rest = seq![Action::Point(Pointer::Default)];
        }
    } else if m.dragging_scrollbar {
        push_three(actions, Action::DragScrollbar, Action::Point(Pointer::Default), Action::Redraw);
        proof {
            rest = seq![Action::DragScrollbar, Action::Point(Pointer::Default), Action::Redraw];
        }
    } else if let Some(axis) = m.resizing {
        let shape = border_pointer(axis);
        push_three(actions, Action::ResizeBorder, Action::Point(shape), Action::RequestRender);
        actions.push(Action::Redraw);
        proof {
            rest =
            seq![
                Action::ResizeBorder,
                Action::Point(shape),
                Action::RequestRender,
                Action::Redraw,
            ];
            assert(actions@ =~= before + rest);
        }
    } else if let Some(axis) = m.border {
        let shape = border_pointer(axis);
        push_if(actions, true, Action::Point(shape));
        after.on_border = true;
        proof {
            rest = seq![Action::Point(shape)];
        }
    } else if m.over_scrollbar {
        push_if(actions, true, Action::Point(Pointer::Default));
        proof {
            rest = seq![Action::Point(Pointer::Default)];
        }
    } else {
        after.on_border = false;
        push_text_motion(actions, seat.held, seat.on_border, m);
        proof {
            rest = text_motion(seat.held, seat.on_border, *m);
        }
    }
    proof {
        assert(actions@ == before + rest);
        lemma_joined(start, hovered(*m), rest);
        assert(open_motion(seat, *m).actions == hovered(*m) + rest);
    }
    after
}

fn cursor_moved(settings: &DeskSettings, seat: Seat, m: &Motion) -> (reaction: Reaction)
    ensures
        reaction@ == on_motion(*settings, seat, *m),
{
    let mut actions: Vec<Action> = Vec::new();
    let mut after = seat;
    push_if(&mut actions, settings.hide_cursor_when_typing, Action::ShowPointer(true));
    let ghost shown = only_if(settings.hide_cursor_when_typing, Action::ShowPointer(true));
    assert(actions@ =~= shown);
    if mouse_is_blocked(m.overlays) {
        actions.push(Action::Point(Pointer::Default));
    } else if let Some(Hover { changed, on_button }) = m.assistant {
        push_if(&mut actions, changed, Action::RedrawOverlay);
        let shape = if on_button {
            Pointer::Hand
        } else {
            Pointer::Default
        };
        actions.push(Action::Point(shape));
    } else if let Some(changed) = m.palette {
        push_if(&mut actions, changed, Action::RedrawOverlay);
        actions.push(Action::Point(Pointer::Default));
    } else {
        after = push_open_motion(&mut actions, seat, m);
    }
    assert(actions@ =~= on_motion(*settings, seat, *m).actions);
    Reaction::of(Some(after), actions)
}

// ---------------------------------------------------------------------------
// The events of a window.

/// What a method of input does.
#[derive(Clone, Copy, Debug, PartialEq, Eq, Structural)]
pub enum Ime {
    /// A text was composed; `several` tells whether it has more than one
    /// character.
    Commit { several: bool },
    /// A text is being composed; `changed` tells whether it is another one.
    Preedit { empty: bool, changed: bool },
    Enabled,
    Disabled,
}

/// What a window tells, with what only others know of it.
#[derive(Clone, Copy, Debug, PartialEq, Eq, Structural)]
pub enum WindowEvent {
    CloseRequested,
    ModifiersChanged,
    MouseInput { button: MouseButton, pressed: bool, facts: ButtonFacts },
    CursorLeft { changed: bool },
    CursorMoved(Motion),
    MouseWheel { overlays: Overlays },
    /// `waits` tells whether what is shown over the terminal took the key.
    KeyboardInput { waits: bool, released: bool, terminal: bool, route: usize },
    Ime { assistant: bool, what: Ime },
    Touch,
    Focused(bool),
    Occluded(bool),
    ThemeChanged(Theme),
    DroppedFile { assistant: bool },
    Resized { width: u32, height: u32 },
    ScaleFactorChanged,
    RedrawRequested { terminal: bool, dirty: bool },
}

/// What a key does.
pub open spec fn on_key(
    settings: DeskSettings,
    waits: bool,
    released: bool,
    terminal: bool,
    route: usize,
) -> Seq<Action> {
    if waits {
        only_if(!terminal && released, Action::Unschedule { timer: Timer::Render, route })
    } else {
        seq![Action::NoteTyping, Action::ProcessKey, Action::Redraw] + only_if(
            released && settings.hide_cursor_when_typing,
            Action::ShowPointer(false),
        )
    }
}

/// What a method of input leads to.
pub open spec fn on_ime(what: Ime) -> Seq<Action> {
    match what {
        Ime::Commit { several } => seq![Action::Paste { bracketed: several }],
        Ime::Preedit { empty, changed } => if changed {
            seq![Action::SetPreedit(!empty), Action::Redraw]
        } else {
            Seq::empty()
        },
        Ime::Enabled => seq![Action::SetIme(true)],
        Ime::Disabled => seq![Action::SetIme(false)],
    }
}

/// What is done where a frame is due. A game is drawn without pause; else a
/// frame follows where something changed meanwhile.
pub open spec fn on_redraw(settings: DeskSettings, terminal: bool, dirty: bool) -> Seq<Action> {
    seq![
        Action::BeginRender,
        if terminal {
            Action::RenderTerminal
        } else {
            Action::RenderWelcome
        },
    ] + only_if(settings.render.game || dirty, Action::Redraw) + seq![
        Action::Poll(settings.render.game),
    ]
}

/// What the wheel does.
pub open spec fn on_wheel(settings: DeskSettings, seat: Seat, overlays: Overlays) -> ReactionView {
    acts(
        Some(seat),
        if is_blocked(overlays) {
            Seq::empty()
        } else {
            only_if(settings.hide_cursor_when_typing, Action::ShowPointer(true)) + seq![
                Action::ScrollWheel,
                Action::Redraw,
            ]
        },
    )
}

/// What is done where a window gets the keyboard or loses it.
pub open spec fn on_focus(settings: DeskSettings, seat: Seat, on: bool) -> ReactionView {
    acts(
        Some(Seat { flags: WindowFlags { is_focused: on, ..seat.flags }, ..seat }),
        only_if(settings.hide_cursor_when_typing, Action::ShowPointer(true)) + only_if(
            seat.flags.is_focused != on,
            Action::Redraw,
        ) + seq![Action::FocusChanged(on)],
    )
}

/// What the program does on what a window tells.
pub open spec fn witnessed(d: DeskView, window: u64, seat: Seat, event: WindowEvent) -> (
    DeskView,
    ReactionView,
) {
    let here = Some(seat);
    match event {
        WindowEvent::CloseRequested => {
            let (app, effects) = on_close_requested(d.app, window);
            (DeskView { app, ..d }, acts_on_sessions(here, effects, Seq::empty()))
        },
        WindowEvent::ModifiersChanged => (d, acts(here, seq![Action::SetModifiers])),
        WindowEvent::MouseInput { button, pressed, facts } => (
            d,
            on_button(d.settings, seat, button, pressed, facts),
        ),
        WindowEvent::CursorLeft { changed } => (d, acts(here, only_if(changed, Action::Redraw))),
        WindowEvent::CursorMoved(m) => (d, on_motion(d.settings, seat, m)),
        WindowEvent::MouseWheel { overlays } => (d, on_wheel(d.settings, seat, overlays)),
        WindowEvent::KeyboardInput { waits, released, terminal, route } => (
            d,
            acts(here, on_key(d.settings, waits, released, terminal, route)),
        ),
        WindowEvent::Ime { assistant, what } => (
            d,
            acts(
                here,
                if assistant {
                    Seq::empty()
                } else {
                    on_ime(what)
                },
            ),
        ),
        WindowEvent::Touch => (d, acts(here, seq![Action::Touch])),
        WindowEvent::Focused(on) => (d, on_focus(d.settings, seat, on)),
        WindowEvent::Occluded(on) => (
            d,
            acts(
                Some(
                    Seat {
                        flags: WindowFlags {
                            is_occluded: on,
                            needs_render_after_occlusion: seat.flags.needs_render_after_occlusion
                                || (seat.flags.is_occluded && !on),
                            ..seat.flags
                        },
                        ..seat
                    },
                ),
                Seq::empty(),
            ),
        ),
        WindowEvent::ThemeChanged(theme) => (
            d,
            acts(
                here,
                if d.settings.force_theme is Some {
                    Seq::empty()
                } else {
                    seq![Action::ApplyTheme(theme), Action::Redraw]
                },
            ),
        ),
        WindowEvent::DroppedFile { assistant } => (
            d,
            acts(here, only_if(!assistant, Action::Paste { bracketed: true })),
        ),
        WindowEvent::Resized { width, height } => (
            d,
            acts(
                here,
                if width == 0 || height == 0 {
                    Seq::empty()
                } else {
                    seq![Action::Resize, Action::Redraw]
                },
            ),
        ),
        WindowEvent::ScaleFactorChanged => (d, acts(here, seq![Action::SetScale, Action::Redraw])),
        WindowEvent::RedrawRequested { terminal, dirty } => (
            d,
            acts(here, on_redraw(d.settings, terminal, dirty)),
        ),
    }
}

fn key_input(settings: &DeskSettings, waits: bool, released: bool, terminal: bool, route: usize) -> (
    actions: Vec<Action>)
    ensures
        actions@ == on_key(*settings, waits, released, terminal, route),
{
    let mut actions: Vec<Action> = Vec::new();
    if waits {
        push_if(
            &mut actions,
            !terminal && released,
            Action::Unschedule { timer: Timer::Render, route },
        );
    } else {
        actions.push(Action::NoteTyping);
        actions.push(Action::ProcessKey);
        actions.push(Action::Redraw);
        push_if(
            &mut actions,
            released && settings.hide_cursor_when_typing,
            Action::ShowPointer(false),
        );
    }
    assert(actions@ =~= on_key(*settings, waits, released, terminal, route));
    actions
}

fn ime_input(what: Ime) -> (actions: Vec<Action>)
    ensures
        actions@ == on_ime(what),
{
    match what {
        Ime::Commit { several } => one(Action::Paste { bracketed: several }),
        Ime::Preedit { empty, changed } => if changed {
            two(Action::SetPreedit(!empty), Action::Redraw)
        } else {
            Vec::new()
        },
        Ime::Enabled => one(Action::SetIme(true)),
        Ime::Disabled => one(Action::SetIme(false)),
    }
}

fn redraw(settings: &DeskSettings, terminal: bool, dirty: bool) -> (actions: Vec<Action>)
    ensures
        actions@ == on_redraw(*settings, terminal, dirty),
{
    let render = if terminal {
        Action::RenderTerminal
    } else {
        Action::RenderWelcome
    };
    let mut actions: Vec<Action> = two(Action::BeginRender, render);
    push_if(&mut actions, settings.render.game || dirty, Action::Redraw);
    actions.push(Action::Poll(settings.render.game));
    assert(actions@ =~= on_redraw(*settings, terminal, dirty));
    actions
}

fn wheel(settings: &DeskSettings, seat: Seat, overlays: Overlays) -> (reaction: Reaction)
    ensures
        reaction@ == on_wheel(*settings, seat, overlays),
{
    if mouse_is_blocked(overlays) {
        return Reaction::quiet(Some(seat));
    }
    let mut actions: Vec<Action> = Vec::new();
    push_if(&mut actions, settings.hide_cursor_when_typing, Action::ShowPointer(true));
    actions.push(Action::ScrollWheel);
    actions.push(Action::Redraw);
    assert(actions@ =~= on_wheel(*settings, seat, overlays).actions);
    Reaction::of(Some(seat), actions)
}

fn focus(settings: &DeskSettings, seat: Seat, on: bool) -> (reaction: Reaction)
    ensures
        reaction@ == on_focus(*settings, seat, on),
{
    let mut flags = seat.flags;
    let changed = flags.focused(on);
    let mut actions: Vec<Action> = Vec::new();
    push_if(&mut actions, settings.hide_cursor_when_typing, Action::ShowPointer(true));
    push_if(&mut actions, changed, Action::Redraw);
    actions.push(Action::FocusChanged(on));
    assert(actions@ =~= on_focus(*settings, seat, on).actions);
    Reaction::of(Some(Seat { flags, ..seat }), actions)
}

impl Desk {
    /// Reacts to what a window tells.
    #[verifier::rlimit(40)]
    pub fn window_event(&mut self, window: u64, seat: Seat, event: WindowEvent) -> (reaction:
        Reaction)
        ensures
            (final(self)@, reaction@) == witnessed(old(self)@, window, seat, event),
    {
        match event {
            WindowEvent::CloseRequested => {
                let effects = self.app.close_requested(window);
                Reaction::sessions(Some(seat), effects)
            },
            WindowEvent::ModifiersChanged => Reaction::of(Some(seat), one(Action::SetModifiers)),
            WindowEvent::MouseInput { button, pressed, facts } => mouse_input(
                &self.settings,
                seat,
                button,
                pressed,
                facts,
            ),
            WindowEvent::CursorLeft { changed } => if changed {
                Reaction::of(Some(seat), one(Action::Redraw))
            } else {
                Reaction::quiet(Some(seat))
            },
            WindowEvent::CursorMoved(m) => cursor_moved(&self.settings, seat, &m),
            WindowEvent::MouseWheel { overlays } => wheel(&self.settings, seat, overlays),
            WindowEvent::KeyboardInput { waits, released, terminal, route } => Reaction::of(
                Some(seat),
                key_input(&self.settings, waits, released, terminal, route),
            ),
            WindowEvent::Ime { assistant, what } => if assistant {
                Reaction::quiet(Some(seat))
            } else {
                Reaction::of(Some(seat), ime_input(what))
            },
            WindowEvent::Touch => Reaction::of(Some(seat), one(Action::Touch)),
            WindowEvent::Focused(on) => focus(&self.settings, seat, on),
            WindowEvent::Occluded(on) => {
                let mut flags = seat.flags;
                flags.occluded(on);
                Reaction::quiet(Some(Seat { flags, ..seat }))
            },
            WindowEvent::ThemeChanged(theme) => if self.settings.force_theme.is_some() {
                Reaction::quiet(Some(seat))
            } else {
                Reaction::of(Some(seat), two(Action::ApplyTheme(theme), Action::Redraw))
            },
            WindowEvent::DroppedFile { assistant } => if assistant {
                Reaction::quiet(Some(seat))
            } else {
                Reaction::of(Some(seat), one(Action::Paste { bracketed: true }))
            },
            WindowEvent::Resized { width, height } => if width == 0 || height == 0 {
                Reaction::quiet(Some(seat))
            } else {
                Reaction::of(Some(seat), two(Action::Resize, Action::Redraw))
            },
            WindowEvent::ScaleFactorChanged => Reaction::of(
                Some(seat),
                two(Action::SetScale, Action::Redraw),
            ),
            WindowEvent::RedrawRequested { terminal, dirty } => Reaction::of(
                Some(seat),
                redraw(&self.settings, terminal, dirty),
            ),
        }
    }
}

/// Whether composed text has more than one character, and is pasted as a whole.
pub fn commit_is_bracketed(text: &str) -> (bracketed: bool)
    ensures
        bracketed == (text@.len() > 1),
{
    let chars = chars_of(text);
    chars.len() > 1
}

/// What is typed for a file that is dropped on a terminal.
pub fn dropped_text(path: &str) -> (text: String)
    ensures
        text@ == path@ + " "@,
{
    let mut text: String = path.to_owned();
    text.append(" ");
    text
}

/// Whether an action reaches a terminal.
pub open spec fn reaches_terminal(action: Action) -> bool {
    match action {
        Action::Offer(_)
        | Action::ReportButton { .. }
        | Action::LeftClick
        | Action::Bindings
        | Action::UpdateSelection
        | Action::FollowHintOrCopy { .. }
        | Action::ScrollWheel => true,
        _ => false,
    }
}

/// While a question is shown the mouse reaches no terminal.
pub proof fn law_a_question_keeps_the_mouse(
    d: DeskView,
    window: u64,
    seat: Seat,
    event: WindowEvent,
    i: int,
)
    requires
        match event {
            WindowEvent::MouseInput { facts, .. } => is_blocked(facts.overlays),
            WindowEvent::CursorMoved(m) => is_blocked(m.overlays),
            WindowEvent::MouseWheel { overlays } => is_blocked(overlays),
            _ => false,
        },
        0 <= i < witnessed(d, window, seat, event).1.actions.len(),
    ensures
        !reaches_terminal(witnessed(d, window, seat, event).1.actions[i]),
{
}

} // verus!
