//! Laws on closing and quitting: what is kept, what ends, and that asking
//! changes only when it happens.
use crate::application::{
    captured_in, close_asks, close_saves, close_window_now, closing, index_of_window, is_open,
    members_of, mirror_effect, named_saves, names_of, on_close_confirmed, on_close_requested,
    on_close_terminal, on_close_window, on_create_window, on_exiting, on_quit, on_save_as,
    on_save_session, quit_all, quit_now, quit_saves, save_effect, slot_of, staying_of,
    without_window, AppView, EffectView, OpenView, QuitSettings,
};
use crate::close::{disposition, CloseDisposition};
use crate::config::SessionRestore;
use crate::kept::DaemonCheck;
use crate::table::{law_bind, law_unbind, lookup, unique_keys};
use vstd::prelude::*;

verus! {

/// The windows under another mode.
pub open spec fn in_mode(v: AppView, mode: SessionRestore) -> AppView {
    AppView { settings: QuitSettings { restore: mode, ..v.settings }, ..v }
}

/// Where a closing window asks, a yes does exactly what would have been done
/// silently.
pub proof fn law_a_yes_does_what_always_does(v: AppView, id: u64, keeps: bool)
    requires
        unique_keys(v.pending),
        close_asks(v, id),
    ensures
        ({
            let asked = closing(v, id, keeps).0;
            on_close_confirmed(asked, id, true).1 == closing(
                in_mode(v, SessionRestore::Always),
                id,
                keeps,
            ).1
        }),
{
    law_bind(v.pending, id, keeps, id);
    let asked = closing(v, id, keeps).0;
    let always = in_mode(v, SessionRestore::Always);
    assert(without_window(asked, id).windows == without_window(always, id).windows);
    assert(on_close_confirmed(asked, id, true).1 =~= closing(always, id, keeps).1);
}

/// The close button keeps a window: it is saved and its daemons are left running,
/// and nothing is taken out of its session.
pub proof fn law_the_close_button_keeps(v: AppView, id: u64, i: int)
    requires
        v.settings.restore == SessionRestore::Always,
        !v.settings.confirm_before_quit,
        is_open(v, id),
        !v.windows[index_of_window(v.windows, id)->0].ephemeral,
    ensures
        on_close_requested(v, id).1.contains(save_effect(v, slot_of(v, id), Some(id))),
        on_close_requested(v, id).1.contains(EffectView::DetachOnClose { window: id }),
        0 <= i < on_close_requested(v, id).1.len() ==> !(on_close_requested(v, id).1[i] is Mirror)
            && !(on_close_requested(v, id).1[i] is Decline),
{
    let all = on_close_requested(v, id).1;
    assert(all[0] == save_effect(v, slot_of(v, id), Some(id)));
    assert(all[1] == EffectView::DetachOnClose { window: id });
}

/// Closing the last tab of a window at work keeps it as well: it is pinned in
/// its session, saved, and its daemons are left running.
pub proof fn law_a_busy_window_is_kept(v: AppView, id: u64, i: int)
    requires
        v.settings.restore == SessionRestore::Always,
        is_open(v, id),
        !v.windows[index_of_window(v.windows, id)->0].ephemeral,
    ensures
        on_close_window(v, id, true).1.contains(
            EffectView::Pin { slot: slot_of(v, id), window: id },
        ),
        on_close_window(v, id, true).1.contains(save_effect(v, slot_of(v, id), Some(id))),
        on_close_window(v, id, true).1.contains(EffectView::DetachOnClose { window: id }),
        0 <= i < on_close_window(v, id, true).1.len() ==> !(on_close_window(
            v,
            id,
            true,
        ).1[i] is Mirror),
{
    let all = on_close_window(v, id, true).1;
    assert(all[0] == EffectView::Pin { slot: slot_of(v, id), window: id });
    assert(all[1] == save_effect(v, slot_of(v, id), Some(id)));
    assert(all[2] == EffectView::DetachOnClose { window: id });
}

/// Closing the last tab of an idle window ends it: its daemons are not left
/// running, and in the end its session is made to mirror the windows that are
/// still open, which it is not among.
pub proof fn law_an_idle_window_ends(v: AppView, id: u64, i: int)
    requires
        v.settings.restore == SessionRestore::Always,
        is_open(v, id),
    ensures
        on_close_window(v, id, false).1.last() == mirror_effect(
            without_window(v, id),
            slot_of(v, id),
            id,
            DaemonCheck::AssumeAlive,
            true,
        ),
        0 <= i < on_close_window(v, id, false).1.len() ==> !(on_close_window(
            v,
            id,
            false,
        ).1[i] is DetachOnClose) && !(on_close_window(v, id, false).1[i] is Pin),
{
}

/// Quitting leaves every daemon running: that is said first, and before the
/// program ends no window is closed on its own.
pub proof fn law_quitting_detaches(v: AppView, focused: Option<u64>, consent: Option<bool>)
    ensures
        quit_all(v, focused, consent)[0] == EffectView::SetQuitDetaching,
        quit_all(v, focused, consent).last() == EffectView::ExitProcess,
{
}

proof fn lemma_captures(windows: Seq<OpenView>, slot: Option<Seq<char>>, i: int)
    requires
        0 <= i < windows.len(),
        !windows[i].ephemeral,
        windows[i].session_name == slot,
    ensures
        captured_in(windows, slot).contains(windows[i].id),
    decreases windows.len(),
{
    let init = windows.drop_last();
    let before = captured_in(init, slot);
    let all = captured_in(windows, slot);
    if i == windows.len() - 1 {
        assert(all.last() == windows[i].id);
    } else {
        assert(init[i] == windows[i]);
        lemma_captures(init, slot, i);
        let k = before.index_of(windows[i].id);
        assert(all[k] == windows[i].id);
    }
}

proof fn lemma_named(windows: Seq<OpenView>, i: int)
    requires
        0 <= i < windows.len(),
        windows[i].session_name is Some,
    ensures
        names_of(windows).contains(windows[i].session_name->0),
    decreases windows.len(),
{
    let init = windows.drop_last();
    let before = names_of(init);
    let all = names_of(windows);
    if i == windows.len() - 1 {
        let name = windows[i].session_name->0;
        if !before.contains(name) {
            assert(all.last() == name);
        }
    } else {
        assert(init[i] == windows[i]);
        lemma_named(init, i);
        let k = before.index_of(windows[i].session_name->0);
        assert(all[k] == windows[i].session_name->0);
    }
}

proof fn lemma_named_save(v: AppView, n: nat, k: int)
    requires
        0 <= k < n <= names_of(v.windows).len(),
    ensures
        named_saves(v, n).len() == n,
        named_saves(v, n)[k] == save_effect(
            v,
            Some(names_of(v.windows)[k]),
            crate::application::first_member(v.windows, Some(names_of(v.windows)[k])),
        ),
    decreases n,
{
    if n > 1 {
        if k < n - 1 {
            lemma_named_save(v, (n - 1) as nat, k);
        } else {
            lemma_named_save(v, (n - 1) as nat, 0);
        }
    } else {
        assert(named_saves(v, 0).len() == 0);
    }
}

/// Whether a thing to do saves a window to a slot.
pub open spec fn saves_window(e: EffectView, slot: Option<Seq<char>>, id: u64) -> bool {
    match e {
        EffectView::Save { slot: s, windows, .. } => s == slot && windows.contains(id),
        _ => false,
    }
}

/// In automatic mode, and after a yes, quitting saves every open window to its
/// session, but for tools.
pub proof fn law_quitting_saves_every_window(
    v: AppView,
    focused: Option<u64>,
    consent: Option<bool>,
    i: int,
)
    requires
        v.settings.restore == SessionRestore::Always || (v.settings.restore
            == SessionRestore::Prompt && consent == Some(true)),
        consent != Some(false),
        0 <= i < v.windows.len(),
        !v.windows[i].ephemeral,
    ensures
        exists|k: int|
            0 <= k < quit_all(v, focused, consent).len() && #[trigger] saves_window(
                quit_all(v, focused, consent)[k],
                v.windows[i].session_name,
                v.windows[i].id,
            ),
{
    let all = quit_all(v, focused, consent);
    let slot = v.windows[i].session_name;
    let saves = quit_saves(v, focused, consent == Some(true));
    let n = names_of(v.windows).len();
    lemma_captures(v.windows, slot, i);
    if n > 0 {
        lemma_named_save(v, n, 0);
    } else {
        assert(named_saves(v, n).len() == 0);
    }
    if slot is Some {
        lemma_named(v.windows, i);
        let k = names_of(v.windows).index_of(slot->0);
        lemma_named_save(v, n, k);
        assert(saves[k] == named_saves(v, n)[k]);
        assert(all[k + 1] == saves[k]);
        assert(saves_window(all[k + 1], slot, v.windows[i].id));
    } else {
        assert(saves[n as int] == save_effect(v, None, focused));
        assert(all[n as int + 1] == saves[n as int]);
        assert(saves_window(all[n as int + 1], slot, v.windows[i].id));
    }
}

/// In asking mode nothing is written and nothing ends before the answer: a quit
/// asks, and does nothing else.
pub proof fn law_a_quit_asks_first(v: AppView, id: u64)
    requires
        v.settings.restore == SessionRestore::Prompt,
        is_open(v, id),
    ensures
        quit_now(v, id) == seq![EffectView::PromptSaveOnQuit { window: id }],
{
    let i = index_of_window(v.windows, id)->0;
    lemma_index_bound(v.windows, id);
    assert(disposition(v.windows[i].session_name is Some, v.settings.restore)
        == CloseDisposition::Prompt);
}

proof fn lemma_index_bound(windows: Seq<OpenView>, id: u64)
    ensures
        index_of_window(windows, id) matches Some(i) ==> 0 <= i < windows.len() && windows[i].id
            == id,
    decreases windows.len(),
{
    if windows.len() > 0 && windows[0].id != id {
        lemma_index_bound(windows.skip(1), id);
        if let Some(i) = index_of_window(windows.skip(1), id) {
            assert(windows.skip(1)[i] == windows[i + 1]);
        }
    }
}

/// With sessions off, windows without a name close and quit without a trace: no
/// file is written and nothing is asked.
pub proof fn law_sessions_off_leave_no_trace(v: AppView, id: u64, keeps: bool, i: int)
    requires
        v.settings.restore == SessionRestore::Never,
        is_open(v, id),
        slot_of(v, id) is None,
    ensures
        0 <= i < closing(v, id, keeps).1.len() ==> !(closing(v, id, keeps).1[i] is Save) && !(
        closing(v, id, keeps).1[i] is Mirror) && !(closing(
            v,
            id,
            keeps,
        ).1[i] is PromptSaveOnExit),
{
}

/// A window that another one asked for belongs to the session of that one: with
/// it, it is saved whenever that session is.
pub proof fn law_a_window_joins_its_session(v: AppView, id: u64, opened: OpenView)
    requires
        on_create_window(v, id)[0] == (EffectView::OpenWindow { session: opened.session_name }),
        !opened.ephemeral,
    ensures
        captured_in(v.windows.push(opened), slot_of(v, id)) == captured_in(
            v.windows,
            slot_of(v, id),
        ).push(opened.id),
{
    assert(v.windows.push(opened).drop_last() =~= v.windows);
}

/// Whether a window with an id has a name and, where `tools` do not count, is none.
pub open spec fn is_window_of(w: OpenView, slot: Option<Seq<char>>, id: u64, tools: bool) -> bool {
    w.id == id && w.session_name == slot && (tools || !w.ephemeral)
}

proof fn lemma_windows_of(windows: Seq<OpenView>, slot: Option<Seq<char>>, id: u64)
    ensures
        captured_in(windows, slot).contains(id) <==> exists|i: int|
            0 <= i < windows.len() && is_window_of(#[trigger] windows[i], slot, id, false),
        members_of(windows, slot).contains(id) <==> exists|i: int|
            0 <= i < windows.len() && is_window_of(#[trigger] windows[i], slot, id, true),
    decreases windows.len(),
{
    if windows.len() > 0 {
        let init = windows.drop_last();
        let last = windows.last();
        lemma_windows_of(init, slot, id);
        assert(windows[windows.len() - 1] == last);
        assert forall|i: int, tools: bool|
            0 <= i < windows.len() && is_window_of(
                #[trigger] windows[i],
                slot,
                id,
                tools,
            ) implies #[trigger] is_window_of(last, slot, id, tools) || exists|j: int|
            0 <= j < init.len() && is_window_of(#[trigger] init[j], slot, id, tools) by {
            if i < init.len() {
                assert(init[i] == windows[i]);
            }
        }
        assert forall|j: int| 0 <= j < init.len() implies #[trigger] init[j] == windows[j] by {}
        let a = captured_in(init, slot);
        let b = captured_in(windows, slot);
        lemma_push_or_same(a, b, last.id, id);
        let c = members_of(init, slot);
        let d = members_of(windows, slot);
        lemma_push_or_same(c, d, last.id, id);
        if exists|j: int| 0 <= j < init.len() && is_window_of(#[trigger] init[j], slot, id, false) {
            let j = choose|j: int|
                0 <= j < init.len() && is_window_of(#[trigger] init[j], slot, id, false);
            assert(is_window_of(windows[j], slot, id, false));
        }
        if exists|j: int| 0 <= j < init.len() && is_window_of(#[trigger] init[j], slot, id, true) {
            let j = choose|j: int|
                0 <= j < init.len() && is_window_of(#[trigger] init[j], slot, id, true);
            assert(is_window_of(windows[j], slot, id, true));
        }
        if is_window_of(last, slot, id, true) {
            assert(is_window_of(windows[windows.len() - 1], slot, id, true));
        }
        if is_window_of(last, slot, id, false) {
            assert(is_window_of(windows[windows.len() - 1], slot, id, false));
        }
    }
}

proof fn lemma_push_or_same(a: Seq<u64>, b: Seq<u64>, x: u64, id: u64)
    requires
        b == a || b == a.push(x),
    ensures
        b == a.push(x) ==> (b.contains(id) <==> a.contains(id) || id == x),
        b == a ==> (b.contains(id) <==> a.contains(id)),
{
    if b == a.push(x) {
        if a.contains(id) {
            let k = a.index_of(id);
            assert(b[k] == id);
        }
        if id == x {
            assert(b[a.len() as int] == id);
        }
        if b.contains(id) && id != x {
            let k = b.index_of(id);
            assert(a[k] == id);
        }
    }
}

/// A save of a session holds its open windows and no other: those with its name,
/// but for tools, which belong to none.
pub proof fn law_a_save_holds_the_windows_of_its_session(
    v: AppView,
    slot: Option<Seq<char>>,
    preferred: Option<u64>,
    id: u64,
)
    ensures
        ({
            let effect = save_effect(v, slot, preferred);
            &&& effect is Save
            &&& effect->Save_slot == slot
            &&& effect->Save_preferred == preferred
            &&& effect->Save_windows.contains(id) <==> exists|i: int|
                0 <= i < v.windows.len() && is_window_of(#[trigger] v.windows[i], slot, id, false)
        }),
{
    lemma_windows_of(v.windows, slot, id);
}

/// The windows of a session are those with its name, tools among them.
pub proof fn law_a_session_has_the_windows_with_its_name(
    v: AppView,
    slot: Option<Seq<char>>,
    id: u64,
)
    ensures
        members_of(v.windows, slot).contains(id) <==> exists|i: int|
            0 <= i < v.windows.len() && is_window_of(#[trigger] v.windows[i], slot, id, true),
{
    lemma_windows_of(v.windows, slot, id);
}

proof fn lemma_names(windows: Seq<OpenView>, name: Seq<char>)
    ensures
        names_of(windows).no_duplicates(),
        names_of(windows).contains(name) <==> exists|i: int|
            0 <= i < windows.len() && (#[trigger] windows[i]).session_name == Some(name),
    decreases windows.len(),
{
    if windows.len() > 0 {
        let init = windows.drop_last();
        let last = windows.last();
        lemma_names(init, name);
        let before = names_of(init);
        let all = names_of(windows);
        assert(windows[windows.len() - 1] == last);
        if before.contains(name) {
            let k = before.index_of(name);
            assert(all[k] == name);
            let i = choose|i: int|
                0 <= i < init.len() && (#[trigger] init[i]).session_name == Some(name);
            assert(windows[i] == init[i]);
        } else if last.session_name == Some(name) {
            assert(all[before.len() as int] == name);
        } else if all.contains(name) {
            let k = all.index_of(name);
            assert(k < before.len());
            assert(before[k] == name);
        } else if exists|i: int|
            0 <= i < windows.len() && (#[trigger] windows[i]).session_name == Some(name) {
            let i = choose|i: int|
                0 <= i < windows.len() && (#[trigger] windows[i]).session_name == Some(name);
            assert(init[i] == windows[i]);
        }
    }
}

/// Each name of an open window is listed, once, and no other.
pub proof fn law_session_names_are_listed_once(v: AppView, name: Seq<char>)
    ensures
        names_of(v.windows).no_duplicates(),
        names_of(v.windows).contains(name) <==> exists|i: int|
            0 <= i < v.windows.len() && (#[trigger] v.windows[i]).session_name == Some(name),
{
    lemma_names(v.windows, name);
}

proof fn lemma_staying(windows: Seq<OpenView>, dying: Seq<u64>, id: u64)
    ensures
        staying_of(windows, dying).contains(id) <==> !dying.contains(id) && exists|i: int|
            0 <= i < windows.len() && (#[trigger] windows[i]).id == id,
    decreases windows.len(),
{
    if windows.len() > 0 {
        let init = windows.drop_last();
        let last = windows.last();
        lemma_staying(init, dying, id);
        assert(windows[windows.len() - 1] == last);
        lemma_push_or_same(staying_of(init, dying), staying_of(windows, dying), last.id, id);
        if exists|i: int| 0 <= i < init.len() && (#[trigger] init[i]).id == id {
            let i = choose|i: int| 0 <= i < init.len() && (#[trigger] init[i]).id == id;
            assert(windows[i] == init[i]);
        }
        if exists|i: int| 0 <= i < windows.len() && (#[trigger] windows[i]).id == id {
            let i = choose|i: int| 0 <= i < windows.len() && (#[trigger] windows[i]).id == id;
            if i < init.len() {
                assert(init[i] == windows[i]);
            }
        }
    }
}

/// A no to a question about one window is about that window: its saved session is
/// dropped with it alone, the daemons of all others that are open are spared, and
/// nothing is saved.
pub proof fn law_a_no_is_about_one_window(v: AppView, id: u64, other: u64, i: int)
    requires
        is_open(v, id),
    ensures
        ({
            let all = on_close_confirmed(v, id, false).1;
            &&& all[0] is Decline
            &&& all[0]->Decline_slot == slot_of(v, id)
            &&& all[0]->dying == seq![id]
            &&& all[0]->staying.contains(other) <==> other != id && exists|j: int|
                0 <= j < v.windows.len() && (#[trigger] v.windows[j]).id == other
            &&& all.contains(EffectView::RemoveWindow { window: id })
            &&& 0 <= i < all.len() ==> !(all[i] is Save) && !(all[i] is Mirror)
        }),
{
    let all = on_close_confirmed(v, id, false).1;
    lemma_staying(v.windows, seq![id], other);
    if other == id {
        assert(seq![id][0] == other);
    }
    assert(seq![id].contains(other) <==> other == id);
    assert(all[1] == (EffectView::DetachOnClose { window: id }));
    assert(all[2] == (EffectView::RemoveWindow { window: id }));
}

/// A window that is answered for is the one that goes: whether its daemons are kept
/// is what was settled when it asked, and once it is answered nothing is pending
/// for it.
pub proof fn law_an_answer_goes_by_the_question(v: AppView, id: u64, keeps: bool, save: bool)
    requires
        unique_keys(v.pending),
        close_asks(v, id),
    ensures
        ({
            let asked = closing(v, id, keeps);
            let done = on_close_confirmed(asked.0, id, save);
            &&& asked.0.windows == v.windows
            &&& asked.1 == seq![EffectView::PromptSaveOnExit { window: id }]
            &&& save ==> (done.1.contains(EffectView::DetachOnClose { window: id }) <==> keeps)
            &&& !save ==> done.1.contains(EffectView::DetachOnClose { window: id })
            &&& lookup(done.0.pending, id) is None
            &&& done.0.windows == without_window(v, id).windows
        }),
{
    law_bind(v.pending, id, keeps, id);
    let asked = closing(v, id, keeps).0;
    law_unbind(asked.pending, id, id);
    let all = on_close_confirmed(asked, id, save).1;
    if !save || keeps {
        assert(all[1] == (EffectView::DetachOnClose { window: id }));
    }
}

/// A window that closes without a question is gone, and the others are as they
/// were.
pub proof fn law_a_closed_window_is_gone(v: AppView, id: u64, keeps: bool)
    requires
        is_open(v, id),
        !close_asks(v, id),
    ensures
        ({
            let after = closing(v, id, keeps).0;
            let i = index_of_window(v.windows, id)->0;
            &&& 0 <= i < v.windows.len()
            &&& v.windows[i].id == id
            &&& after.windows == v.windows.remove(i)
            &&& after.settings == v.settings
            &&& closing(v, id, keeps).1.contains(EffectView::RemoveWindow { window: id })
            &&& closing(v, id, keeps).1.contains(EffectView::DetachOnClose { window: id }) <==> keeps
        }),
{
    lemma_index_bound(v.windows, id);
    let all = closing(v, id, keeps).1;
    let saves = close_saves(v, id);
    let n: int = (if saves {
        1int
    } else {
        0int
    }) + if keeps {
        1int
    } else {
        0int
    };
    assert(all[n] == (EffectView::RemoveWindow { window: id }));
    if keeps {
        assert(all[n - 1] == (EffectView::DetachOnClose { window: id }));
    }
}

/// The program ends with its last window, unless the platform keeps programs
/// without windows and the user wants to be asked before it ends.
pub proof fn law_the_last_window_ends_the_program(v: AppView, id: u64, keeps: bool)
    ensures
        close_window_now(v, id, keeps).contains(EffectView::ExitLoop) <==> without_window(
            v,
            id,
        ).windows.len() == 0 && !(v.settings.outlives_windows && v.settings.confirm_before_quit),
{
    let all = close_window_now(v, id, keeps);
    let ends = without_window(v, id).windows.len() == 0 && !(v.settings.outlives_windows
        && v.settings.confirm_before_quit);
    if ends {
        assert(all[all.len() - 1] == EffectView::ExitLoop);
    }
}

/// A save that the user asks for looks whether daemons answer and drops what was
/// pinned; one on a change takes them as alive and keeps it. Both write the session
/// of the window as it is open, and tell its user.
pub proof fn law_a_save_by_hand_looks_closer(v: AppView, id: u64)
    requires
        is_open(v, id),
    ensures
        on_save_session(v, id, true) == seq![
            mirror_effect(v, slot_of(v, id), id, DaemonCheck::Probe, false),
            EffectView::Notice { window: id },
        ],
        on_save_session(v, id, false) == seq![
            mirror_effect(v, slot_of(v, id), id, DaemonCheck::AssumeAlive, true),
            EffectView::Notice { window: id },
        ],
{
    assert(on_save_session(v, id, true) =~= seq![
        mirror_effect(v, slot_of(v, id), id, DaemonCheck::Probe, false),
        EffectView::Notice { window: id },
    ]);
    assert(on_save_session(v, id, false) =~= seq![
        mirror_effect(v, slot_of(v, id), id, DaemonCheck::AssumeAlive, true),
        EffectView::Notice { window: id },
    ]);
}

/// A session that is saved under a name has it from then on, and is what that file
/// holds; the other windows keep their names.
pub proof fn law_a_session_takes_its_name(v: AppView, id: u64, name: Seq<char>, i: int)
    requires
        is_open(v, id),
        0 <= i < v.windows.len(),
    ensures
        ({
            let done = on_save_as(v, id, Some(name));
            &&& slot_of(done.0, id) == Some(name)
            &&& done.0.windows.len() == v.windows.len()
            &&& done.0.windows[i].id == v.windows[i].id
            &&& v.windows[i].id != id ==> done.0.windows[i] == v.windows[i]
            &&& done.1[0] is Mirror
            &&& done.1[0]->Mirror_slot == Some(name)
            &&& done.1[0]->Mirror_preferred == id
            &&& done.1[0]->check == DaemonCheck::Probe
            &&& !v.windows[index_of_window(v.windows, id)->0].ephemeral
                ==> done.1[0]->Mirror_windows.contains(id)
            &&& on_save_as(v, id, None).0 == v
        }),
{
    let done = on_save_as(v, id, Some(name));
    let k = index_of_window(v.windows, id)->0;
    lemma_index_bound(v.windows, id);
    lemma_index_first(v.windows, id);
    lemma_index_same(v.windows, done.0.windows, id);
    if !v.windows[k].ephemeral {
        assert(is_window_of(done.0.windows[k], Some(name), id, false));
        lemma_windows_of(done.0.windows, Some(name), id);
    }
}

proof fn lemma_index_first(windows: Seq<OpenView>, id: u64)
    ensures
        index_of_window(windows, id) is None <==> forall|j: int|
            0 <= j < windows.len() ==> (#[trigger] windows[j]).id != id,
    decreases windows.len(),
{
    if windows.len() > 0 {
        let rest = windows.skip(1);
        lemma_index_first(rest, id);
        assert forall|j: int| 0 < j < windows.len() implies rest[j - 1] == #[trigger] windows[j] by {}
        assert forall|j: int| 0 <= j < rest.len() implies #[trigger] rest[j] == windows[j + 1] by {}
        if windows[0].id != id {
            if index_of_window(rest, id) is None {
                assert forall|j: int| 0 <= j < windows.len() implies (
                #[trigger] windows[j]).id != id by {
                    if j > 0 {
                        assert(rest[j - 1].id != id);
                    }
                }
            } else {
                lemma_index_bound(rest, id);
                let j = index_of_window(rest, id)->0;
                assert(windows[j + 1].id == id);
            }
        }
    }
}

proof fn lemma_index_same(a: Seq<OpenView>, b: Seq<OpenView>, id: u64)
    requires
        a.len() == b.len(),
        forall|j: int| 0 <= j < a.len() ==> (#[trigger] a[j]).id == b[j].id,
    ensures
        index_of_window(a, id) == index_of_window(b, id),
    decreases a.len(),
{
    if a.len() > 0 && a[0].id != id {
        assert forall|j: int| 0 <= j < a.skip(1).len() implies (#[trigger] a.skip(1)[j]).id
            == b.skip(1)[j].id by {
            assert(a[j + 1].id == b[j + 1].id);
        }
        lemma_index_same(a.skip(1), b.skip(1), id);
    }
}

/// A terminal that ends takes its route with it. Where others are left the window
/// stays as it was, with one tab less to show; where it was the last one the window
/// closes as an idle one does.
pub proof fn law_a_terminal_that_ends(v: AppView, id: u64, route: usize)
    requires
        is_open(v, id),
    ensures
        forall|last: bool, emptied: bool|
            (#[trigger] on_close_terminal(v, id, route, last, emptied)).1[0]
                == (EffectView::DropRoute { route }),
        on_close_terminal(v, id, route, false, false) == (
            v,
            seq![EffectView::DropRoute { route }, EffectView::TabClosed { window: id }],
        ),
        forall|emptied: bool|
            (#[trigger] on_close_terminal(v, id, route, true, emptied)).0 == closing(v, id, false).0,
        close_asks(v, id) ==> forall|emptied: bool|
            (#[trigger] on_close_terminal(v, id, route, true, emptied)).1.skip(1) == closing(
                v,
                id,
                false,
            ).1,
        on_close_terminal(v, id, route, false, true).0 == without_window(v, id),
        on_close_terminal(v, id, route, false, true).1.contains(EffectView::Unschedule { route }),
        on_close_terminal(v, id, route, false, true).1.contains(
            EffectView::RemoveWindow { window: id },
        ),
{
    assert(on_close_terminal(v, id, route, false, true).1[1] == (EffectView::Unschedule { route }));
    assert(on_close_terminal(v, id, route, false, true).1[2] == (EffectView::RemoveWindow {
        window: id,
    }));
    assert forall|emptied: bool| close_asks(v, id) implies (
    #[trigger] on_close_terminal(v, id, route, true, emptied)).1.skip(1) == closing(
        v,
        id,
        false,
    ).1 by {
        assert(on_close_terminal(v, id, route, true, emptied).1.skip(1) =~= closing(
            v,
            id,
            false,
        ).1);
    }
}

/// Where the user wants to be asked before the program ends, a quit asks and does
/// nothing else; otherwise it goes on at once.
pub proof fn law_a_quit_is_confirmed_first(v: AppView, id: u64)
    requires
        is_open(v, id),
    ensures
        v.settings.confirm_before_quit ==> on_quit(v, id) == seq![
            EffectView::ConfirmQuit { window: id },
        ],
        !v.settings.confirm_before_quit ==> on_quit(v, id) == quit_now(v, id),
{
}

/// A program that is ended by the system asks nothing: it says that daemons are
/// kept, saves what needs no question, drops its windows and ends.
pub proof fn law_an_ending_program_asks_nothing(v: AppView, focused: Option<u64>)
    ensures
        ({
            let done = on_exiting(v, focused);
            &&& done.0.windows.len() == 0
            &&& done.1[0] == EffectView::SetQuitDetaching
            &&& done.1.last() == EffectView::ExitProcess
            &&& done.1[done.1.len() - 2] == EffectView::ClearWindows
            &&& v.settings.restore != SessionRestore::Always ==> done.1.len() == 3
            &&& done.1.subrange(1, done.1.len() - 2) == quit_all(v, focused, None).subrange(
                1,
                quit_all(v, focused, None).len() - 1,
            )
        }),
{
    let done = on_exiting(v, focused);
    assert(done.1.subrange(1, done.1.len() - 2) =~= quit_all(v, focused, None).subrange(
        1,
        quit_all(v, focused, None).len() - 1,
    ));
}

} // verus!
