//! What holds of saving a session, taking it back and naming it.
use crate::close::{disposition, name_of, session_names, stems, writes_on_quit, CloseDisposition};
use crate::config::{restore_named, Session, SessionRestore};
use crate::context::{BackendView, PaneBackend, TargetView};
use crate::kept::{merged, DaemonCheck};
use crate::pane::texts;
use crate::saved::{others, written};
use crate::session::{
    acceptable, capped_layout, capped_session, capped_tabs, capped_text, captured, first_of,
    injects_scrollback, law_repaint_is_bounded, leaves, leaves_of, tab_panes, target_of, usable,
    LayoutView, PaneState, PaneView, SessionView, SplitDir, TabStateView, WindowView,
};
use crate::table::{lemma_absent, lemma_position, lookup, unique_keys};
use crate::text::ends_with;
use crate::words::{is_white_space, trim_back, trim_front};
use vstd::prelude::*;
use vstd::utf8::encode_utf8;

verus! {

// ---------------------------------------------------------------------------
// Panes.

/// What is saved of a pane shows it as it was: its text, its title where it has
/// one, and whether it had the keyboard.
pub proof fn law_a_pane_is_saved_as_it_looks(
    backend: BackendView,
    probed: Option<Seq<char>>,
    told: Option<Seq<char>>,
    title: Seq<char>,
    is_active: bool,
    scrollback: Seq<char>,
)
    ensures
        ({
            let pane = captured(backend, probed, told, title, is_active, scrollback);
            &&& pane.scrollback == scrollback
            &&& pane.is_active == is_active
            &&& title.len() > 0 ==> pane.title == Some(title)
            &&& title.len() == 0 ==> pane.title is None
        }),
{
}

/// A pane is saved with the directory that its process was found in. Of another
/// machine a process cannot be looked up here, so what was found does not count.
pub proof fn law_a_pane_is_saved_where_it_works(
    backend: BackendView,
    probed: Option<Seq<char>>,
    told: Option<Seq<char>>,
    title: Seq<char>,
    is_active: bool,
    scrollback: Seq<char>,
)
    ensures
        ({
            let pane = captured(backend, probed, told, title, is_active, scrollback);
            let remote = backend is Ptyd && backend->host is Some;
            &&& !remote && probed is Some ==> pane.cwd == probed
            &&& (remote || probed is None) && told is Some ==> pane.cwd == told
            &&& (remote || probed is None) && told is None && backend is Ptyd ==> pane.cwd
                == backend->reported_cwd
            &&& probed is None && told is None && backend is Local ==> pane.cwd is None
            &&& remote ==> pane == captured(backend, None, told, title, is_active, scrollback)
        }),
{
}

/// A pane with a shell of this process comes back with a shell of its own: it
/// names no daemon.
pub proof fn law_a_local_pane_names_no_daemon(
    probed: Option<Seq<char>>,
    told: Option<Seq<char>>,
    title: Seq<char>,
    is_active: bool,
    scrollback: Seq<char>,
)
    ensures
        target_of(captured(BackendView::Local, probed, told, title, is_active, scrollback)) is None,
{
}

/// A pane attaches to the daemon with its id and to no other: over its host where
/// one was saved, else at its socket; without an id or a way there, to none.
pub proof fn law_a_pane_attaches_to_its_own_daemon(pane: PaneView)
    ensures
        pane.pane_id is None ==> target_of(pane) is None,
        pane.host is None && pane.socket is None ==> target_of(pane) is None,
        pane.pane_id is Some && pane.host is Some ==> target_of(pane) == Some(
            TargetView::Ssh { host: pane.host->0, pane_id: pane.pane_id->0 },
        ),
        pane.pane_id is Some && pane.host is None && pane.socket is Some ==> target_of(pane)
            == Some(TargetView::Unix { pane_id: pane.pane_id->0, socket: pane.socket->0 }),
{
}

/// Saved text is painted exactly where nothing else brings it back: a daemon that
/// was attached to replays the screen itself.
pub proof fn law_text_is_painted_once(pane: &PaneState, backend: &PaneBackend, inject: bool)
    requires
        call_ensures(injects_scrollback, (pane, backend), inject),
    ensures
        pane.scrollback@.len() == 0 ==> !inject,
        backend is Local && pane.scrollback@.len() > 0 ==> inject,
        backend is Ptyd && backend->replayed ==> !inject,
        backend is Ptyd && !backend->replayed && pane.scrollback@.len() > 0 ==> inject,
{
}

// ---------------------------------------------------------------------------
// Trees.

/// A tree can be used exactly where its parts can: a split without children, or
/// with a weight that is zero, negative, infinite or no number, cannot.
pub proof fn law_a_tree_is_as_good_as_its_parts(
    direction: SplitDir,
    children: Seq<(u32, LayoutView)>,
    pane: PaneView,
)
    ensures
        usable(LayoutView::Leaf(pane)),
        usable(LayoutView::Split { direction, children }) <==> {
            &&& children.len() > 0
            &&& forall|i: int|
                0 <= i < children.len() ==> {
                    &&& (#[trigger] children[i]).0 != 0
                    &&& children[i].0 <= 0x7F7F_FFFF
                    &&& usable(children[i].1)
                }
        },
{
    let node = LayoutView::Split { direction, children };
    assert(usable(node) <==> children.len() > 0 && forall|i: int|
        0 <= i < children.len() ==> crate::session::good_weight((#[trigger] children[i]).0)
            && usable(children[i].1));
}

proof fn lemma_leaves_of_push(children: Seq<(u32, LayoutView)>, last: (u32, LayoutView), n: nat)
    requires
        n <= children.len(),
    ensures
        leaves_of(children.push(last), n) == leaves_of(children, n),
    decreases n,
{
    if n > 0 {
        lemma_leaves_of_push(children, last, (n - 1) as nat);
        assert(children.push(last)[n - 1] == children[n - 1]);
    }
}

/// The panes of a split are those of its children, in their order.
pub proof fn law_panes_are_counted_in_order(
    direction: SplitDir,
    children: Seq<(u32, LayoutView)>,
    last: (u32, LayoutView),
    pane: PaneView,
)
    ensures
        leaves(LayoutView::Leaf(pane)) == seq![pane],
        leaves(LayoutView::Split { direction, children: Seq::empty() }).len() == 0,
        leaves(LayoutView::Split { direction, children: children.push(last) }) == leaves(
            LayoutView::Split { direction, children },
        ) + leaves(last.1),
{
    let more = children.push(last);
    lemma_leaves_of_push(children, last, children.len());
    assert(more[children.len() as int] == last);
    assert(leaves_of(more, more.len()) == leaves_of(more, children.len()) + leaves(last.1));
}

proof fn lemma_leaves_start(children: Seq<(u32, LayoutView)>, n: nat)
    requires
        0 < n <= children.len(),
        leaves(children[0].1).len() > 0,
    ensures
        leaves_of(children, n).len() > 0,
        leaves_of(children, n)[0] == leaves(children[0].1)[0],
    decreases n,
{
    if n == 1 {
        assert(leaves_of(children, 0).len() == 0);
        assert(leaves_of(children, 1) == leaves_of(children, 0) + leaves(children[0].1));
    } else {
        lemma_leaves_start(children, (n - 1) as nat);
    }
}

/// The first pane of a tree is the one that stands first among its panes.
pub proof fn law_the_first_pane_comes_first(node: LayoutView)
    requires
        usable(node),
    ensures
        leaves(node).len() > 0,
        first_of(node) == leaves(node)[0],
    decreases node,
{
    match node {
        LayoutView::Leaf(_) => {},
        LayoutView::Split { children, .. } => {
            assert(usable(children[0].1));
            law_the_first_pane_comes_first(children[0].1);
            lemma_leaves_start(children, children.len());
        },
    }
}

// ---------------------------------------------------------------------------
// Accepting.

/// Whether one pane is another, with the end of its text that may be painted: all
/// of it where its encoding has at most eight mebibytes.
pub open spec fn is_pane_but_text(out: PaneView, saved: PaneView) -> bool {
    &&& out == (PaneView { scrollback: out.scrollback, ..saved })
    &&& ends_with(saved.scrollback, out.scrollback)
    &&& encode_utf8(out.scrollback).len() <= 8388608
    &&& encode_utf8(saved.scrollback).len() <= 8388608 ==> out.scrollback == saved.scrollback
}

/// Whether one tree stands as another does: the same panes, side by side and one
/// above the other as they were, with the same shares.
pub open spec fn stands_as(out: LayoutView, saved: LayoutView) -> bool
    decreases saved,
{
    match saved {
        LayoutView::Leaf(pane) => out is Leaf && is_pane_but_text(out->0, pane),
        LayoutView::Split { direction, children } => {
            &&& out is Split
            &&& out->direction == direction
            &&& out->children.len() == children.len()
            &&& forall|i: int|
                0 <= i < children.len() ==> out->children[i].0 == (#[trigger] children[i]).0
                    && stands_as(out->children[i].1, children[i].1)
        },
    }
}

proof fn lemma_a_tree_stands(node: LayoutView)
    ensures
        stands_as(capped_layout(node), node),
    decreases node,
{
    match node {
        LayoutView::Leaf(pane) => {
            law_repaint_is_bounded(pane.scrollback, 8388608);
            assert(capped_layout(node)->0.scrollback == capped_text(pane.scrollback, 8388608));
        },
        LayoutView::Split { children, .. } => {
            let out = capped_layout(node);
            assert forall|i: int| 0 <= i < children.len() implies out->children[i].0 == (
            #[trigger] children[i]).0 && stands_as(out->children[i].1, children[i].1) by {
                lemma_a_tree_stands(children[i].1);
                assert(out->children[i] == (children[i].0, capped_layout(children[i].1)));
            }
        },
    }
}

/// A session that is taken back stands as it was saved: its windows, their places
/// and sizes, the tabs and their titles, and every pane in them. Only text that is
/// too long to be painted is cut, at its beginning.
pub proof fn law_a_session_comes_back_as_it_was(s: SessionView)
    ensures
        ({
            let out = capped_session(s);
            &&& out.version == s.version
            &&& out.windows.len() == s.windows.len()
            &&& forall|i: int|
                0 <= i < s.windows.len() ==> {
                    &&& out.windows[i].size == (#[trigger] s.windows[i]).size
                    &&& out.windows[i].position == s.windows[i].position
                    &&& out.windows[i].active_tab == s.windows[i].active_tab
                    &&& out.windows[i].tabs.len() == s.windows[i].tabs.len()
                }
            &&& forall|i: int, j: int|
                0 <= i < s.windows.len() && 0 <= j < s.windows[i].tabs.len() ==> {
                    &&& out.windows[i].tabs[j].custom_title == (
                    #[trigger] s.windows[i].tabs[j]).custom_title
                    &&& stands_as(out.windows[i].tabs[j].layout, s.windows[i].tabs[j].layout)
                }
        }),
{
    let out = capped_session(s);
    assert forall|i: int, j: int| 0 <= i < s.windows.len() && 0 <= j < s.windows[i].tabs.len() implies {
        &&& out.windows[i].tabs[j].custom_title == (#[trigger] s.windows[i].tabs[j]).custom_title
        &&& stands_as(out.windows[i].tabs[j].layout, s.windows[i].tabs[j].layout)
    } by {
        assert(out.windows[i].tabs == capped_tabs(s.windows[i].tabs));
        lemma_a_tree_stands(s.windows[i].tabs[j].layout);
    }
}

proof fn lemma_single_panes(tabs: Seq<TabStateView>)
    requires
        forall|i: int| 0 <= i < tabs.len() ==> (#[trigger] tabs[i]).layout is Leaf,
    ensures
        tab_panes(tabs).len() == tabs.len(),
    decreases tabs.len(),
{
    if tabs.len() > 0 {
        let init = tabs.drop_last();
        assert forall|i: int| 0 <= i < init.len() implies (#[trigger] init[i]).layout is Leaf by {
            assert(init[i] == tabs[i]);
        }
        lemma_single_panes(init);
        assert(tabs[tabs.len() - 1] == tabs.last());
        assert(leaves(tabs.last().layout).len() == 1);
    }
}

/// A session is taken back where it has the shape of this version, a window, only
/// trees that can be used, and at most 256 panes in each window; where one of these
/// fails it is not.
pub proof fn law_what_is_taken_back(s: SessionView)
    ensures
        s.version != 2 ==> !acceptable(s),
        s.windows.len() == 0 ==> !acceptable(s),
        forall|i: int|
            0 <= i < s.windows.len() && tab_panes((#[trigger] s.windows[i]).tabs).len() > 256
                ==> !acceptable(s),
        forall|i: int, j: int|
            0 <= i < s.windows.len() && 0 <= j < s.windows[i].tabs.len() && !usable(
                (#[trigger] s.windows[i].tabs[j]).layout,
            ) ==> !acceptable(s),
        s.version == 2 && s.windows.len() > 0 && (forall|i: int|
            0 <= i < s.windows.len() ==> tab_panes((#[trigger] s.windows[i]).tabs).len() <= 256)
            && (forall|i: int, j: int|
            0 <= i < s.windows.len() && 0 <= j < s.windows[i].tabs.len() ==> usable(
                (#[trigger] s.windows[i].tabs[j]).layout,
            )) ==> acceptable(s),
{
    assert forall|i: int, j: int|
        0 <= i < s.windows.len() && 0 <= j < s.windows[i].tabs.len() && !usable(
            (#[trigger] s.windows[i].tabs[j]).layout,
        ) implies !acceptable(s) by {
        if acceptable(s) {
            assert(crate::session::acceptable_window(s.windows[i]));
        }
    }
    if s.version == 2 && s.windows.len() > 0 && (forall|i: int|
        0 <= i < s.windows.len() ==> tab_panes((#[trigger] s.windows[i]).tabs).len() <= 256) && (
    forall|i: int, j: int|
        0 <= i < s.windows.len() && 0 <= j < s.windows[i].tabs.len() ==> usable(
            (#[trigger] s.windows[i].tabs[j]).layout,
        )) {
        assert forall|i: int| 0 <= i < s.windows.len() implies crate::session::acceptable_window(
            #[trigger] s.windows[i],
        ) by {
            let tabs = s.windows[i].tabs;
            assert(tab_panes(s.windows[i].tabs).len() <= 256);
            assert forall|j: int| 0 <= j < tabs.len() implies usable((#[trigger] tabs[j]).layout) by {
                assert(usable(s.windows[i].tabs[j].layout));
            }
        }
    }
}

/// Windows of up to 256 tabs with a pane each always come back.
pub proof fn law_plain_windows_come_back(s: SessionView)
    requires
        s.version == 2,
        s.windows.len() > 0,
        forall|i: int| 0 <= i < s.windows.len() ==> (#[trigger] s.windows[i]).tabs.len() <= 256,
        forall|i: int, j: int|
            0 <= i < s.windows.len() && 0 <= j < s.windows[i].tabs.len() ==> (
            #[trigger] s.windows[i].tabs[j]).layout is Leaf,
    ensures
        acceptable(s),
{
    assert forall|i: int| 0 <= i < s.windows.len() implies tab_panes(
        (#[trigger] s.windows[i]).tabs,
    ).len() <= 256 by {
        let tabs = s.windows[i].tabs;
        assert forall|j: int| 0 <= j < tabs.len() implies (#[trigger] tabs[j]).layout is Leaf by {
            assert(s.windows[i].tabs[j].layout is Leaf);
        }
        lemma_single_panes(tabs);
    }
    law_what_is_taken_back(s);
}

// ---------------------------------------------------------------------------
// Writing.

/// A save writes every open window as it is, in its order. What is carried over of
/// the session before stands behind the tabs of the first window and nowhere else.
pub proof fn law_open_windows_are_written_as_they_are(
    windows: Seq<WindowView>,
    old: Option<SessionView>,
    check: DaemonCheck,
    live: Seq<Seq<char>>,
)
    requires
        windows.len() > 0,
    ensures
        ({
            let out = merged(windows, old, check, live);
            &&& out.version == 2
            &&& out.windows.len() == windows.len()
            &&& forall|i: int|
                0 < i < windows.len() ==> #[trigger] out.windows[i] == windows[i]
            &&& out.windows[0].size == windows[0].size
            &&& out.windows[0].position == windows[0].position
            &&& out.windows[0].active_tab == windows[0].active_tab
            &&& out.windows[0].tabs.len() >= windows[0].tabs.len()
            &&& out.windows[0].tabs.take(windows[0].tabs.len() as int) == windows[0].tabs
            &&& old is None ==> out.windows == windows
        }),
{
    let out = merged(windows, old, check, live);
    assert(out.windows[0].tabs.take(windows[0].tabs.len() as int) =~= windows[0].tabs);
    if old is None {
        assert(windows[0].tabs + Seq::<TabStateView>::empty() =~= windows[0].tabs);
        assert(out.windows =~= windows);
    }
}

proof fn lemma_others(entries: Seq<(u64, WindowView)>, key: Option<u64>, i: int)
    requires
        0 <= i < entries.len(),
        key != Some(entries[i].0),
    ensures
        others(entries, key).contains(entries[i].1),
    decreases entries.len(),
{
    let before = others(entries.drop_last(), key);
    let all = others(entries, key);
    if i == entries.len() - 1 {
        assert(all[before.len() as int] == entries[i].1);
    } else {
        lemma_others(entries.drop_last(), key, i);
        assert(entries.drop_last()[i] == entries[i]);
        let k = before.index_of(entries[i].1);
        assert(all[k] == entries[i].1);
    }
}

proof fn lemma_others_count(entries: Seq<(u64, WindowView)>, key: u64)
    requires
        unique_keys(entries),
    ensures
        others(entries, Some(key)).len() == if lookup(entries, key) is Some {
            entries.len() - 1
        } else {
            entries.len() as int
        },
    decreases entries.len(),
{
    if entries.len() > 0 {
        let init = entries.drop_last();
        assert forall|a: int, b: int| 0 <= a < b < init.len() implies (#[trigger] init[a]).0 != (
        #[trigger] init[b]).0 by {
            assert(init[a] == entries[a] && init[b] == entries[b]);
        }
        lemma_others_count(init, key);
        if entries.last().0 == key {
            assert forall|j: int| 0 <= j < init.len() implies (#[trigger] init[j]).0 != key by {
                assert(init[j] == entries[j]);
                assert(entries[entries.len() - 1] == entries.last());
            }
            lemma_absent(init, key);
        }
    }
}

/// The preferred window is written first, and every window that is recorded is
/// written once.
pub proof fn law_the_preferred_window_is_written_first(
    entries: Seq<(u64, WindowView)>,
    key: u64,
    i: int,
)
    requires
        unique_keys(entries),
        0 <= i < entries.len(),
    ensures
        entries[i].0 == key ==> written(entries, Some(key))[0] == entries[i].1,
        written(entries, Some(key)).contains(entries[i].1),
        written(entries, Some(key)).len() == entries.len(),
{
    lemma_others_count(entries, key);
    let all = written(entries, Some(key));
    let rest = others(entries, Some(key));
    if lookup(entries, key) is Some {
        let k = lemma_position(entries, key);
        if entries[i].0 == key {
            assert(k == i) by {
                if k < i {
                    assert(entries[k].0 != entries[i].0);
                } else if i < k {
                    assert(entries[i].0 != entries[k].0);
                }
            }
            assert(all[0] == entries[i].1);
        } else {
            lemma_others(entries, Some(key), i);
            let n = rest.index_of(entries[i].1);
            assert(all[n + 1] == entries[i].1);
        }
    } else {
        if entries[i].0 == key {
            crate::table::lemma_has_key(entries, key);
            assert(false);
        }
        lemma_others(entries, Some(key), i);
    }
}

proof fn lemma_all_others(entries: Seq<(u64, WindowView)>, i: int)
    requires
        0 <= i < entries.len(),
    ensures
        others(entries, None).len() == entries.len(),
        others(entries, None)[i] == entries[i].1,
    decreases entries.len(),
{
    let init = entries.drop_last();
    if init.len() == 0 {
        assert(others(init, None).len() == 0);
    } else if i < init.len() {
        lemma_all_others(init, i);
    } else {
        lemma_all_others(init, 0);
    }
}

/// Without a preferred window they are written as they were recorded.
pub proof fn law_windows_are_written_in_order(entries: Seq<(u64, WindowView)>, i: int)
    requires
        0 <= i < entries.len(),
    ensures
        written(entries, None).len() == entries.len(),
        written(entries, None)[i] == entries[i].1,
{
    lemma_all_others(entries, i);
}

// ---------------------------------------------------------------------------
// Modes and names.

/// A window is saved silently in automatic mode alone, is asked for where the mode
/// asks or a name says that it is to be kept, and leaves no trace otherwise. What
/// is asked for is written exactly on a yes.
pub proof fn law_closing_goes_by_mode_and_name(named: bool, mode: SessionRestore)
    ensures
        disposition(named, mode) == CloseDisposition::Save <==> mode == SessionRestore::Always,
        disposition(named, mode) == CloseDisposition::Nothing <==> mode == SessionRestore::Never
            && !named,
        disposition(true, mode) != CloseDisposition::Nothing,
        writes_on_quit(named, mode, true) <==> (named || mode != SessionRestore::Never),
        writes_on_quit(named, mode, false) <==> mode == SessionRestore::Always,
{
}

/// Each mode goes by its name, in both spellings, and the two modes without a
/// question by the older words too. No other word names one.
pub proof fn law_modes_go_by_their_names(name: Seq<char>)
    ensures
        restore_named(name) == Some(SessionRestore::Prompt) <==> (name == "prompt"@ || name
            == "Prompt"@),
        restore_named(name) == Some(SessionRestore::Never) <==> (name == "never"@ || name
            == "Never"@ || name == "disable"@ || name == "disabled"@),
        restore_named(name) == Some(SessionRestore::Always) <==> (name == "always"@ || name
            == "Always"@ || name == "enable"@ || name == "enabled"@),
{
    reveal_strlit("never");
    reveal_strlit("Never");
    reveal_strlit("disable");
    reveal_strlit("disabled");
    reveal_strlit("prompt");
    reveal_strlit("Prompt");
    reveal_strlit("always");
    reveal_strlit("Always");
    reveal_strlit("enable");
    reveal_strlit("enabled");
    assert("prompt"@[0] == 'p');
    assert("Prompt"@[0] == 'P');
    assert("never"@[0] == 'n');
    assert("Never"@[0] == 'N');
    assert("disable"@[0] == 'd');
    assert("disabled"@[0] == 'd');
    assert("always"@[0] == 'a');
    assert("Always"@[0] == 'A');
    assert("enable"@[0] == 'e');
    assert("enabled"@[0] == 'e');
}

/// Panes live in daemons only where they are to outlive the program and sessions
/// come back at all.
pub proof fn law_daemons_are_for_sessions(session: &Session, daemons: bool)
    requires
        call_ensures(Session::uses_daemons, (session,), daemons),
    ensures
        !session.persistent ==> !daemons,
        session.restore == SessionRestore::Never ==> !daemons,
        session.persistent && session.restore != SessionRestore::Never ==> daemons,
{
}

/// Whether a character may stand in a name as it is.
pub open spec fn is_plain_sign(c: char) -> bool {
    ||| 'a' <= c && c <= 'z'
    ||| 'A' <= c && c <= 'Z'
    ||| '0' <= c && c <= '9'
    ||| c == '-'
    ||| c == '_'
    ||| c == '.'
}

proof fn lemma_untrimmed(s: Seq<char>)
    requires
        s.len() > 0 ==> !is_white_space(s[0]) && !is_white_space(s.last()),
    ensures
        trim_back(trim_front(s)) == s,
{
}

/// A plain name is kept as it is, one with blanks or other signs inside gets a
/// dash for each, and blanks around it do not count.
pub proof fn law_a_name_is_kept_but_for_odd_signs(name: Seq<char>, blank: char)
    requires
        is_white_space(blank),
        name.len() > 0 ==> !is_white_space(name[0]) && !is_white_space(name.last()),
    ensures
        name_of(name).len() == name.len(),
        forall|i: int|
            0 <= i < name.len() && is_plain_sign(name[i]) ==> #[trigger] name_of(name)[i]
                == name[i],
        forall|i: int|
            0 <= i < name.len() && !is_plain_sign(name[i]) ==> #[trigger] name_of(name)[i] == '-',
        name_of(seq![blank] + name) == name_of(name),
        name_of(name.push(blank)) == name_of(name),
{
    lemma_untrimmed(name);
    assert((seq![blank] + name).skip(1) =~= name);
    assert(trim_front(seq![blank] + name) == trim_front(name));
    let long = name.push(blank);
    assert(long.drop_last() =~= name);
    if name.len() == 0 {
        assert(long.skip(1) =~= name);
        assert(trim_front(long) == trim_front(name));
    } else {
        assert(long[0] == name[0]);
        assert(trim_front(long) == long);
        assert(trim_back(long) == trim_back(name));
    }
}

proof fn lemma_stems(files: Seq<Seq<char>>, name: Seq<char>)
    requires
        name.len() > 0,
    ensures
        stems(files).contains(name) <==> files.contains(name + ".json"@),
    decreases files.len(),
{
    reveal_strlit(".json");
    let file = name + ".json"@;
    if files.len() > 0 {
        let init = files.drop_last();
        lemma_stems(init, name);
        let before = stems(init);
        let all = stems(files);
        let last = files.last();
        assert(last == files[files.len() - 1]);
        if last == file {
            assert(file.take(file.len() - 5) =~= name);
            assert(file.skip(file.len() - 5) =~= ".json"@);
            assert(all[before.len() as int] == name);
            assert(files.contains(file));
        } else {
            if files.contains(file) {
                let k = files.index_of(file);
                assert(init[k] == file);
                let n = before.index_of(name);
                assert(all[n] == name);
            }
            if all.contains(name) {
                let n = all.index_of(name);
                if n < before.len() {
                    assert(before[n] == name);
                    let k = init.index_of(file);
                    assert(files[k] == file);
                } else {
                    assert(last.take(last.len() - 5) == name);
                    assert(last.skip(last.len() - 5) == ".json"@);
                    assert(last =~= file);
                }
            }
        }
    }
}

/// The sessions that are listed are those with a file: each name stands in the
/// list exactly where the file that goes by it is there.
pub proof fn law_a_session_is_listed_where_it_has_a_file(
    files: &Vec<String>,
    names: Vec<String>,
    name: Seq<char>,
)
    requires
        call_ensures(session_names, (files,), names),
        name.len() > 0,
    ensures
        texts(names@).contains(name) <==> texts(files@).contains(name + ".json"@),
{
    lemma_stems(texts(files@), name);
    let listed = texts(names@);
    let found = stems(texts(files@));
    listed.to_multiset_ensures();
    found.to_multiset_ensures();
    assert(listed.contains(name) <==> listed.to_multiset().count(name) > 0);
    assert(found.contains(name) <==> found.to_multiset().count(name) > 0);
}

} // verus!
