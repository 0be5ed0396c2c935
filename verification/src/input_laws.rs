//! What mouse and keyboard do to a window.
use crate::desk::{Action, DeskSettings, Seat, Timer};
use crate::input::{
    clicked, code_of, first_target, holding, motion_code, on_button, on_focus, on_ime, on_key,
    on_motion, on_redraw, on_wheel, open_motion, passed_by, pointer_on, release_actions, taken_by,
    text_motion, Axis, ButtonFacts, ClickState, Clicks, Held, Ime, Motion, MouseButton, Overlays,
    Pointer, PressTarget,
};
use vstd::prelude::*;

verus! {

/// Clicks count only while they come quickly and with one button: two make a
/// double, three a triple click, and the next one starts over.
pub proof fn law_clicks_are_counted(c: Clicks, button: MouseButton, quick: bool)
    ensures
        clicked(c, button, quick).last_button == button,
        !quick || button != c.last_button ==> clicked(c, button, quick).state == ClickState::Click,
        quick && button == c.last_button && c.state == ClickState::Click ==> clicked(
            c,
            button,
            quick,
        ).state == ClickState::DoubleClick,
        quick && button == c.last_button && c.state == ClickState::DoubleClick ==> clicked(
            c,
            button,
            quick,
        ).state == ClickState::TripleClick,
        c.state == ClickState::TripleClick || c.state == ClickState::Still ==> clicked(
            c,
            button,
            quick,
        ).state == ClickState::Click,
{
}

/// A button that is pressed is held until it is released, and no other with it.
pub proof fn law_each_button_is_held_on_its_own(h: Held, pressed: bool)
    ensures
        ({
            let left = holding(h, MouseButton::Left, pressed);
            let middle = holding(h, MouseButton::Middle, pressed);
            let right = holding(h, MouseButton::Right, pressed);
            &&& left.left == pressed && left.middle == h.middle && left.right == h.right
            &&& middle.middle == pressed && middle.left == h.left && middle.right == h.right
            &&& right.right == pressed && right.left == h.left && right.middle == h.middle
        }),
        forall|button: MouseButton|
            button != MouseButton::Left && button != MouseButton::Middle && button
                != MouseButton::Right ==> #[trigger] holding(h, button, pressed) == h,
{
}

/// Programs are told buttons by their numbers: the left one is 0, the middle one 1
/// and the right one 2. A motion adds 32, and 35 is one without a button.
pub proof fn law_buttons_have_their_numbers(h: Held, m: Motion, button: MouseButton)
    ensures
        code_of(MouseButton::Left) == Some(0u8),
        code_of(MouseButton::Middle) == Some(1u8),
        code_of(MouseButton::Right) == Some(2u8),
        button != MouseButton::Left && button != MouseButton::Middle && button
            != MouseButton::Right ==> code_of(button) is None,
        h.left ==> motion_code(h, m) == Some(32u8),
        !h.left && h.middle ==> motion_code(h, m) == Some(33u8),
        !h.left && !h.middle && h.right ==> motion_code(h, m) == Some(34u8),
        !h.left && !h.middle && !h.right && m.all_motion ==> motion_code(h, m) == Some(35u8),
        !h.left && !h.middle && !h.right && !m.all_motion ==> motion_code(h, m) is None,
{
}

/// While a question is shown the mouse reaches no terminal: a press goes to the
/// chrome alone, and a release ends what was dragged.
pub proof fn law_a_question_takes_the_buttons(
    settings: DeskSettings,
    seat: Seat,
    button: MouseButton,
    pressed: bool,
    f: ButtonFacts,
)
    requires
        !f.overlays.terminal || f.overlays.confirm_quit || f.overlays.session_prompt
            || f.overlays.confirm_close,
    ensures
        ({
            let r = on_button(settings, seat, button, pressed, f);
            &&& pressed ==> r.actions.last() == Action::TakeChromePress && r.actions.len() <= 2
                && r.seat == Some(seat)
            &&& pressed && r.actions.len() == 2 ==> r.actions[0] == Action::DragWindow && button
                == MouseButton::Left && f.bar
            &&& pressed && button == MouseButton::Left && f.bar ==> r.actions.len() == 2
            &&& !pressed && button == MouseButton::Left ==> r.actions == seq![Action::CancelDrags]
                && r.seat is Some && !r.seat->0.held.left
            &&& !pressed && button != MouseButton::Left ==> r.actions.len() == 0 && r.seat == Some(
                seat,
            )
        }),
{
}

/// A press that nothing blocks is counted, held and offered: the left one to the
/// borders first, the right one to the tabs, any other to the panels.
pub proof fn law_a_press_is_offered(
    settings: DeskSettings,
    seat: Seat,
    button: MouseButton,
    f: ButtonFacts,
)
    requires
        f.overlays.terminal,
        !f.overlays.confirm_quit,
        !f.overlays.session_prompt,
        !f.overlays.confirm_close,
    ensures
        ({
            let r = on_button(settings, seat, button, true, f);
            &&& r.seat is Some
            &&& r.seat->0.held == holding(seat.held, button, true)
            &&& r.seat->0.clicks == clicked(seat.clicks, button, f.quick)
            &&& button == MouseButton::Left ==> r.actions.last() == Action::Offer(
                PressTarget::Border,
            )
            &&& button == MouseButton::Right ==> r.actions.last() == Action::Offer(
                PressTarget::Island,
            )
            &&& button != MouseButton::Left && button != MouseButton::Right ==> r.actions.last()
                == Action::Offer(PressTarget::Panel)
            &&& settings.hide_cursor_when_typing <==> r.actions.contains(Action::ShowPointer(true))
        }),
{
    let r = on_button(settings, seat, button, true, f);
    if settings.hide_cursor_when_typing {
        assert(r.actions[0] == Action::ShowPointer(true));
    }
}

/// A release reports to a program that wants it and to no other, ends a drag where
/// one is on, and else copies what was selected.
pub proof fn law_a_release_goes_where_the_press_went(
    settings: DeskSettings,
    button: MouseButton,
    f: ButtonFacts,
    i: int,
)
    requires
        !(button == MouseButton::Left && f.tab_dropped),
    ensures
        ({
            let all = release_actions(settings, button, f);
            let main = button == MouseButton::Left || button == MouseButton::Right;
            let copies = Action::FollowHintOrCopy {
                hint: button == MouseButton::Left,
                primary: true,
                clipboard: settings.copy_on_select,
            };
            &&& main ==> all[0] == (Action::Unschedule {
                timer: Timer::SelectionScrolling,
                route: f.route,
            })
            &&& f.dragging_scrollbar ==> all.contains(Action::ReleaseScrollbar)
            &&& !f.dragging_scrollbar && f.resizing ==> all.contains(Action::ReleaseBorder)
            &&& 0 <= i < all.len() && all[i] is ReportButton ==> f.reports && !f.dragging_scrollbar
                && !f.resizing && !all[i]->pressed && Some(all[i]->code) == code_of(button)
            &&& f.reports && !f.dragging_scrollbar && !f.resizing && code_of(button) is Some
                ==> all.contains(Action::ReportButton { code: code_of(button)->0, pressed: false })
            &&& !f.reports && !f.dragging_scrollbar && !f.resizing && main ==> all.contains(copies)
            &&& 0 <= i < all.len() && all[i] is FollowHintOrCopy ==> !f.reports && all[i] == copies
        }),
{
    let all = release_actions(settings, button, f);
    let main = button == MouseButton::Left || button == MouseButton::Right;
    let n: int = if main {
        1
    } else {
        0
    };
    if f.dragging_scrollbar {
        assert(all[n] == Action::ReleaseScrollbar);
    } else if f.resizing {
        assert(all[n] == Action::ReleaseBorder);
    } else if f.reports {
        if code_of(button) is Some {
            assert(all[n] == (Action::ReportButton { code: code_of(button)->0, pressed: false }));
        }
    } else if main {
        assert(all[1] is FollowHintOrCopy);
    }
}

/// A press that a panel passes on is told to a program that wants presses, by the
/// number of its button, and to no other.
pub proof fn law_a_press_is_reported_where_it_is_wanted(
    seat: Seat,
    button: MouseButton,
    bar: bool,
    reports: bool,
)
    requires
        code_of(button) is Some,
    ensures
        reports ==> passed_by(seat, button, PressTarget::Panel, bar, reports).actions[0]
            == (Action::ReportButton { code: code_of(button)->0, pressed: true }),
        !reports ==> passed_by(seat, button, PressTarget::Panel, bar, reports).actions == seq![
            Action::Offer(PressTarget::Hyperlink),
        ],
        passed_by(seat, button, PressTarget::Hyperlink, bar, reports).actions.contains(
            Action::LeftClick,
        ) <==> button == MouseButton::Left,
{
    let over = passed_by(seat, button, PressTarget::Hyperlink, bar, reports).actions;
    if button == MouseButton::Left {
        assert(over[0] == Action::LeftClick);
    }
}

/// A selection follows the mouse only while the left or right button is held, and
/// not in a program that takes the mouse unless shift is held too. Nothing is
/// reported then.
pub proof fn law_a_selection_follows_a_held_button(
    h: Held,
    was_on_border: bool,
    m: Motion,
    i: int,
)
    ensures
        ({
            let all = text_motion(h, was_on_border, m);
            &&& 0 <= i < all.len() && all[i] == Action::UpdateSelection ==> (h.left || h.right) && (
            m.shift || !m.mouse_mode)
            &&& (m.cell || m.side || m.inside || was_on_border) && (h.left || h.right) && (m.shift
                || !m.mouse_mode) ==> all.contains(Action::UpdateSelection)
            &&& 0 <= i < all.len() && all[i] is ReportButton ==> m.cell && m.drag_reports
                && all[i]->pressed && Some(all[i]->code) == motion_code(h, m) && !((h.left
                || h.right) && (m.shift || !m.mouse_mode))
            &&& 0 <= i < all.len() && all[i] is Schedule ==> m.has_selection && (h.left || h.right)
                && m.scroll_zone && !m.scroll_scheduled
        }),
{
    let all = text_motion(h, was_on_border, m);
    let n: int = if m.has_selection && (h.left || h.right) && m.scroll_zone && !m.scroll_scheduled {
        1
    } else {
        0
    };
    if (m.cell || m.side || m.inside || was_on_border) && (h.left || h.right) && (m.shift
        || !m.mouse_mode) {
        assert(all[n] == Action::UpdateSelection);
    }
}

/// A border between columns is dragged sideways, one between rows up and down, and
/// the pointer shows which.
pub proof fn law_the_pointer_shows_the_border(seat: Seat, m: Motion, axis: Axis)
    requires
        !(seat.held.left && m.dragging_tab),
        !m.over_island,
        !m.dragging_scrollbar,
    ensures
        pointer_on(Axis::Vertical) == Pointer::Column,
        pointer_on(Axis::Horizontal) == Pointer::Row,
        m.resizing == Some(axis) ==> open_motion(seat, m).actions.contains(Action::ResizeBorder)
            && open_motion(seat, m).actions.contains(Action::Point(pointer_on(axis))),
        m.resizing is None && m.border == Some(axis) ==> {
            let r = open_motion(seat, m);
            &&& r.actions.last() == Action::Point(pointer_on(axis))
            &&& r.seat is Some
            &&& r.seat->0.on_border
        },
{
    let r = open_motion(seat, m);
    if m.resizing == Some(axis) {
        let n = r.actions.len() - 4;
        assert(r.actions[n] == Action::ResizeBorder);
        assert(r.actions[n + 1] == Action::Point(pointer_on(axis)));
    }
}

/// While a question is shown the mouse only shows the plain pointer.
pub proof fn law_a_question_keeps_the_pointer_plain(settings: DeskSettings, seat: Seat, m: Motion)
    requires
        !m.overlays.terminal || m.overlays.confirm_quit || m.overlays.session_prompt
            || m.overlays.confirm_close,
    ensures
        on_motion(settings, seat, m).seat == Some(seat),
        on_motion(settings, seat, m).actions.last() == Action::Point(Pointer::Default),
        on_motion(settings, seat, m).actions.len() == if settings.hide_cursor_when_typing {
            2int
        } else {
            1int
        },
{
}

/// A key that nothing waits for is noted, handed on and drawn; where the pointer is
/// hidden while typing it is hidden then. A key that something waits for does not
/// reach the terminal.
pub proof fn law_a_key_reaches_the_terminal(
    settings: DeskSettings,
    waits: bool,
    released: bool,
    terminal: bool,
    route: usize,
)
    ensures
        ({
            let all = on_key(settings, waits, released, terminal, route);
            &&& all.contains(Action::ProcessKey) <==> !waits
            &&& !waits ==> all[0] == Action::NoteTyping && all[1] == Action::ProcessKey && all[2]
                == Action::Redraw
            &&& all.contains(Action::ShowPointer(false)) <==> !waits && released
                && settings.hide_cursor_when_typing
        }),
{
    let all = on_key(settings, waits, released, terminal, route);
    if !waits {
        assert(all[1] == Action::ProcessKey);
        if released && settings.hide_cursor_when_typing {
            assert(all[3] == Action::ShowPointer(false));
        }
    }
}

/// What an input method commits is pasted, in brackets where it is more than one
/// character; what it has not yet committed is only shown.
pub proof fn law_an_input_method_commits(several: bool, empty: bool, changed: bool)
    ensures
        on_ime(Ime::Commit { several }) == seq![Action::Paste { bracketed: several }],
        changed ==> on_ime(Ime::Preedit { empty, changed })[0] == Action::SetPreedit(!empty),
        !changed ==> on_ime(Ime::Preedit { empty, changed }).len() == 0,
        on_ime(Ime::Enabled) == seq![Action::SetIme(true)],
        on_ime(Ime::Disabled) == seq![Action::SetIme(false)],
{
}

/// The wheel scrolls unless a question is shown.
pub proof fn law_the_wheel_scrolls(settings: DeskSettings, seat: Seat, overlays: Overlays)
    ensures
        on_wheel(settings, seat, overlays).actions.contains(Action::ScrollWheel) <==> {
            &&& overlays.terminal
            &&& !overlays.confirm_quit
            &&& !overlays.session_prompt
            &&& !overlays.confirm_close
        },
        on_wheel(settings, seat, overlays).seat == Some(seat),
{
    let all = on_wheel(settings, seat, overlays).actions;
    if all.len() > 0 {
        assert(all[all.len() - 2] == Action::ScrollWheel);
    }
}

/// A window knows whether it has the keyboard, tells its terminal, and is drawn
/// where that changed.
pub proof fn law_a_window_knows_its_focus(settings: DeskSettings, seat: Seat, on: bool)
    ensures
        on_focus(settings, seat, on).seat is Some,
        on_focus(settings, seat, on).seat->0.flags.is_focused == on,
        on_focus(settings, seat, on).actions.last() == Action::FocusChanged(on),
        on_focus(settings, seat, on).actions.contains(Action::Redraw) <==> seat.flags.is_focused
            != on,
{
    let all = on_focus(settings, seat, on).actions;
    if seat.flags.is_focused != on {
        assert(all[all.len() - 2] == Action::Redraw);
    }
}

/// A window is drawn once more where it is drawn without pause or has changed
/// meanwhile.
pub proof fn law_a_dirty_window_is_drawn_again(
    settings: DeskSettings,
    terminal: bool,
    dirty: bool,
)
    ensures
        ({
            let all = on_redraw(settings, terminal, dirty);
            &&& all[0] == Action::BeginRender
            &&& terminal ==> all[1] == Action::RenderTerminal
            &&& !terminal ==> all[1] == Action::RenderWelcome
            &&& all.contains(Action::Redraw) <==> settings.render.game || dirty
            &&& all.last() == Action::Poll(settings.render.game)
        }),
{
    let all = on_redraw(settings, terminal, dirty);
    if settings.render.game || dirty {
        assert(all[2] == Action::Redraw);
    }
}

/// A press that a border or a link takes changes nothing else; one that a panel
/// takes still counts for the key bindings.
pub proof fn law_a_taken_press_goes_no_further(target: PressTarget)
    ensures
        taken_by(target).contains(Action::Bindings) <==> target == PressTarget::Panel,
        taken_by(target).len() == 0 <==> target == PressTarget::Border || target
            == PressTarget::Hyperlink,
        forall|i: int| 0 <= i < taken_by(target).len() ==> !(#[trigger] taken_by(target)[i] is Offer),
        first_target(MouseButton::Left) == PressTarget::Border,
{
    if target == PressTarget::Panel {
        assert(taken_by(target)[1] == Action::Bindings);
    }
}

} // verus!
