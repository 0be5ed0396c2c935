//! What the program does on what it is told: by its own parts, by terminals, by
//! other machines.
use crate::cli::PaneFacts;
use crate::desk::{Action, DeskView, Seat, Timer};
use crate::dispatch::{on_fired, on_update_config, reacted, timed, Fired, UserEvent};
use crate::graphics::{GraphicData, GraphicRemoval};
use crate::images::{display_size, kitty_key, needs_upload, updated_image, GraphicDataEntry};
use crate::pane::{opt_text, PaneMeta};
use crate::protocol::ServerHello;
use crate::remote::{
    hello_info, launched, listed_entry, AttachError, AttachErrorView, HelloInfo, Launched,
    ShellState,
};
use vstd::prelude::*;

verus! {

// ---------------------------------------------------------------------------
// Drawing.

/// Whether a window is kept from being drawn: without the keyboard or hidden, where
/// the settings say so, unless it was just shown again.
pub open spec fn is_muted(d: DeskView, seat: Seat) -> bool {
    ||| d.settings.render.disable_unfocused_render && !seat.flags.is_focused
    ||| d.settings.render.disable_occluded_render && seat.flags.is_occluded
        && !seat.flags.needs_render_after_occlusion
}

/// A window that is to be drawn is, unless it is kept from it; having been shown
/// again counts once.
pub proof fn law_a_muted_window_is_not_drawn(d: DeskView, window: u64, seat: Seat)
    ensures
        ({
            let r = reacted(d, window, Some(seat), UserEvent::Render).1;
            &&& is_muted(d, seat) ==> r.actions.len() == 0 && r.seat == Some(seat)
            &&& !is_muted(d, seat) ==> r.actions == seq![Action::Redraw] && r.seat is Some
                && !r.seat->0.flags.needs_render_after_occlusion && r.seat->0.flags.is_focused
                == seat.flags.is_focused && r.seat->0.flags.is_occluded == seat.flags.is_occluded
        }),
{
}

/// A terminal that is to be drawn is marked, and its window is drawn at once, or
/// after the time that is left till the next frame where nothing sees to that yet.
/// A window without the keyboard is still drawn for its scrollbar.
pub proof fn law_a_terminal_is_drawn_in_its_frame(
    d: DeskView,
    window: u64,
    seat: Seat,
    route: usize,
    scrollbar: bool,
    wait: Option<u64>,
    scheduled: bool,
)
    ensures
        ({
            let event = UserEvent::RenderRoute { route, scrollbar, wait, scheduled };
            let r = reacted(d, window, Some(seat), event).1;
            let unfocused = d.settings.render.disable_unfocused_render && !seat.flags.is_focused;
            &&& !d.settings.render.event_based ==> r.actions.len() == 0
            &&& d.settings.render.event_based && unfocused ==> (r.actions == seq![Action::Redraw]
                <==> scrollbar) && (r.actions.len() == 0 <==> !scrollbar)
            &&& d.settings.render.event_based && !is_muted(d, seat) ==> {
                &&& r.actions[0] == (Action::MarkDirty { route })
                &&& wait is None ==> r.actions == seq![Action::MarkDirty { route }, Action::Redraw]
                &&& wait is Some && scheduled ==> r.actions.len() == 1
                &&& wait is Some && !scheduled ==> r.actions.len() == 2 && r.actions[1]
                    == (Action::Schedule {
                    timer: Timer::RenderRoute,
                    route,
                    millis: wait->0,
                    repeat: false,
                })
            }
        }),
{
}

/// Cells that changed are drawn where the window has the terminal and may be drawn.
pub proof fn law_damage_is_drawn_where_it_shows(
    d: DeskView,
    window: u64,
    seat: Seat,
    route: usize,
    known: bool,
)
    ensures
        ({
            let r = reacted(d, window, Some(seat), UserEvent::TerminalDamaged { route, known }).1;
            let shows = d.settings.render.event_based && !is_muted(d, seat) && known;
            &&& shows ==> r.actions == seq![Action::MarkDirty { route }, Action::Redraw]
            &&& !shows ==> r.actions.len() == 0
        }),
{
}

/// A timer that is set already is left alone; else it is set once, for its terminal
/// and its time.
pub proof fn law_a_timer_is_set_once(scheduled: bool, timer: Timer, route: usize, millis: u64)
    ensures
        scheduled ==> timed(scheduled, timer, route, millis).len() == 0,
        !scheduled ==> timed(scheduled, timer, route, millis) == seq![
            Action::Schedule { timer, route, millis, repeat: false },
        ],
{
}

// ---------------------------------------------------------------------------
// Terminals and rules.

/// Only a window with the keyboard reads or writes the clipboard for its terminals.
pub proof fn law_the_clipboard_is_for_the_focused(
    d: DeskView,
    window: u64,
    seat: Seat,
    route: usize,
)
    ensures
        ({
            let load = reacted(d, window, Some(seat), UserEvent::ClipboardLoad { route }).1.actions;
            let store = reacted(d, window, Some(seat), UserEvent::ClipboardStore).1.actions;
            &&& seat.flags.is_focused ==> load == seq![Action::SendClipboard { route }] && store
                == seq![Action::StoreClipboard]
            &&& !seat.flags.is_focused ==> load.len() == 0 && store.len() == 0
        }),
{
}

/// What is written to a terminal goes to that terminal.
pub proof fn law_an_answer_goes_to_its_terminal(
    d: DeskView,
    window: u64,
    seat: Seat,
    route: usize,
    changed: bool,
    cursor: bool,
)
    ensures
        reacted(d, window, Some(seat), UserEvent::PtyWrite { route }).1.actions == seq![
            Action::SendBytes { route },
        ],
        reacted(d, window, Some(seat), UserEvent::TextAreaSizeRequest { route }).1.actions == seq![
            Action::SendTextAreaSize { route },
        ],
        ({
            let told = reacted(
                d,
                window,
                Some(seat),
                UserEvent::ColorRequest { route, changed, cursor },
            ).1.actions;
            &&& cursor && !changed ==> told.len() == 0
            &&& !cursor || changed ==> told == seq![Action::SendColor { route, own: changed }]
        }),
{
}

/// What a rule asks for is done for its terminal: a notification with its urgency,
/// text to the terminal, a program, or a coprocess for ten seconds at most. Without
/// its window nothing is run for it and nothing is sent.
pub proof fn law_a_rule_acts_for_its_terminal(seat: Seat, route: usize, urgency: u8)
    ensures
        on_fired(Some(seat), route, Fired::Notify { urgency }).actions == seq![
            Action::Notify { urgency },
        ],
        on_fired(Some(seat), route, Fired::SendText).actions == seq![Action::SendBytes { route }],
        on_fired(Some(seat), route, Fired::Run).actions == seq![Action::RunProgram],
        on_fired(Some(seat), route, Fired::Coprocess).actions == seq![
            Action::StartCoprocess { route, secs: 10 },
        ],
        on_fired(None, route, Fired::SendText).actions.len() == 0,
        on_fired(None, route, Fired::Run).actions.len() == 0,
{
}

/// Settings that were read are applied; rules that were not read are kept and told
/// of. Settings that were not read change nothing.
pub proof fn law_settings_are_applied_as_read(
    settings_read: bool,
    rules_read: bool,
    fonts: bool,
)
    ensures
        ({
            let all = on_update_config(settings_read, rules_read, fonts);
            let applied = Action::ApplySettings { fonts, keep_rules: !rules_read };
            &&& !settings_read ==> all == seq![Action::ReportSettingsError]
            &&& settings_read ==> all.contains(applied)
            &&& settings_read ==> (all.contains(Action::ReportRulesError) <==> !rules_read)
            &&& settings_read ==> (all.contains(Action::LoadFonts) <==> fonts)
        }),
{
    let all = on_update_config(settings_read, rules_read, fonts);
    let n: int = if fonts {
        1
    } else {
        0
    };
    if settings_read {
        assert(all[n] == (Action::ApplySettings { fonts, keep_rules: !rules_read }));
        if fonts {
            assert(all[0] == Action::LoadFonts);
        }
        if !rules_read {
            assert(all[n + 1] == Action::ReportRulesError);
        }
    }
}

/// A bell rings where the settings have one.
pub proof fn law_a_bell_rings_where_wanted(d: DeskView, window: u64, seat: Option<Seat>)
    ensures
        reacted(d, window, seat, UserEvent::Bell).1.actions.len() == 1
            <==> d.settings.audio_bell,
        d.settings.audio_bell ==> reacted(d, window, seat, UserEvent::Bell).1.actions == seq![
            Action::RingBell,
        ],
{
}

// ---------------------------------------------------------------------------
// Images.

/// An image is shown at the size that was asked for, in each direction, and at its
/// own where none was.
pub proof fn law_an_image_has_the_size_asked_for(
    width: usize,
    height: usize,
    display_width: Option<usize>,
    display_height: Option<usize>,
    size: (usize, usize),
)
    requires
        call_ensures(display_size, (width, height, display_width, display_height), size),
    ensures
        display_width is Some ==> size.0 == display_width->0,
        display_width is None ==> size.0 == width,
        display_height is Some ==> size.1 == display_height->0,
        display_height is None ==> size.1 == height,
{
}

/// What is kept of an image is its size as shown and when it was sent.
pub proof fn law_an_entry_is_of_its_image<H>(
    handle: H,
    data: &GraphicData,
    entry: GraphicDataEntry<H>,
)
    requires
        call_ensures(GraphicDataEntry::<H>::from_graphic_data, (handle, data), entry),
    ensures
        entry.handle == handle,
        entry.transmit_time == data.transmit_time,
        data.display_width is None ==> entry.width == data.width,
        data.display_width is Some ==> entry.width == data.display_width->0,
        data.display_height is None ==> entry.height == data.height,
        data.display_height is Some ==> entry.height == data.display_height->0,
{
}

/// An image is uploaded where it is not there in that very transmission.
pub proof fn law_an_image_is_uploaded_once(
    present: Option<u64>,
    transmit_time: u64,
    upload: bool,
)
    requires
        call_ensures(needs_upload, (present, transmit_time), upload),
    ensures
        present is None ==> upload,
        present is Some ==> (upload <==> present->0 != transmit_time),
{
}

/// An image that was sent last is the one that is kept, though it was removed in the
/// same update; one that was removed and not sent again is gone; one that neither
/// concerns stays.
pub proof fn law_the_last_image_sent_is_kept<V>(
    before: Option<V>,
    route: usize,
    removals: Seq<GraphicRemoval>,
    atlas: Seq<(u64, V)>,
    kitty: Seq<(u32, V)>,
    id: u32,
    image: V,
)
    ensures
        updated_image(before, route, removals, atlas, kitty.push((id, image)), kitty_key(route, id))
            == Some(image),
        updated_image(
            before,
            route,
            removals.push(GraphicRemoval::Kitty(id)),
            Seq::empty(),
            Seq::empty(),
            kitty_key(route, id),
        ) is None,
        updated_image(
            before,
            route,
            Seq::empty(),
            Seq::empty(),
            Seq::empty(),
            kitty_key(route, id),
        ) == before,
{
    let sent = crate::images::kitty_entries(route, kitty.push((id, image)));
    assert(sent.last() == (kitty_key(route, id), image));
    let all = removals.push(GraphicRemoval::Kitty(id));
    assert(crate::images::removal_key(route, all[removals.len() as int]) == kitty_key(route, id));
    assert(crate::images::is_removed(route, all, kitty_key(route, id)));
    let none = Seq::<GraphicRemoval>::empty();
    assert(!crate::images::is_removed(route, none, kitty_key(route, id)));
}

// ---------------------------------------------------------------------------
// Other machines.

/// A pane is listed as it is: each of its facts under its own name.
pub proof fn law_a_pane_is_listed_as_it_is(m: PaneMeta, f: PaneFacts)
    ensures
        ({
            let e = listed_entry(m, f);
            &&& e.pane_id == Some(m.pane_id@)
            &&& e.alive == Some(f.alive)
            &&& e.program == Some(m.program@)
            &&& m.cwd is Some ==> e.cwd == Some(m.cwd->0@)
            &&& m.cwd is None ==> e.cwd is None
            &&& m.exited_status is Some ==> e.exited_status is Some && e.exited_status->0
                == m.exited_status->0
            &&& m.exited_status is None ==> e.exited_status is None
        }),
{
}

/// A daemon whose shell is gone is not attached to: its status is told instead. Of
/// any other, what it told is taken, each number for what it is.
pub proof fn law_a_hello_is_taken_as_it_is(
    hello: &ServerHello,
    cwd: Option<String>,
    info: Result<HelloInfo, AttachError>,
)
    requires
        call_ensures(hello_info, (hello, cwd), info),
    ensures
        info is Err <==> hello.shell_state == 1,
        info is Err ==> info->Err_0@ == AttachErrorView::ShellExited(hello.exit_status),
        info is Ok ==> {
            &&& info->Ok_0@.daemon_pid == hello@.daemon_pid
            &&& info->Ok_0@.shell_pid == hello@.shell_pid
            &&& info->Ok_0@.shell_state == ShellState::Running
            &&& info->Ok_0@.cwd == opt_text(cwd)
        },
{
}

/// A launch that told of a fault failed with it. Otherwise it succeeded exactly
/// where it told both an id and a socket, and those are taken.
pub proof fn law_a_launch_tells_its_pane(
    fault: Option<String>,
    pane_id: Option<String>,
    socket: Option<String>,
    result: Result<Launched, AttachError>,
)
    requires
        call_ensures(launched, (fault, pane_id, socket), result),
    ensures
        fault is Some ==> result is Err && result->Err_0@ == AttachErrorView::Io(fault->0@),
        result is Ok <==> {
            &&& fault is None
            &&& pane_id is Some && pane_id->0@.len() > 0
            &&& socket is Some && socket->0@.len() > 0
        },
        result is Ok ==> result->Ok_0.pane_id@ == pane_id->0@ && result->Ok_0.socket@
            == socket->0@,
{
}

} // verus!
