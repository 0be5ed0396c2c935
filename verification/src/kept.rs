//! Daemons that a saved session refers to: which are carried over when the file
//! is written again, and which end when it is discarded.
use crate::pane::texts;
use crate::session::{
    leaves, leaves_of, tab_panes, tab_states, window_panes, window_states, LayoutNode, LayoutView,
    PaneState, PaneView, SessionState, SessionView, TabState, TabStateView, WindowState, WindowView,
    SESSION_VERSION,
};
use crate::text::same_text;
use vstd::prelude::*;

verus! {

/// How a save makes sure of the daemons it carries over.
#[derive(Clone, Copy, Debug, PartialEq, Eq, Structural)]
pub enum DaemonCheck {
    /// Each is connected to; only those that answer are carried over.
    Probe,
    /// All are carried over. For saves that happen at every change: what is
    /// stale falls to the next save that probes.
    AssumeAlive,
}

/// How a save that made a file mirror what is open makes sure of the daemons: it
/// probes once a window dropped out, since its daemons may have ended with it.
pub fn check_for(dropped: bool, check: DaemonCheck) -> (chosen: DaemonCheck)
    ensures
        chosen == if dropped {
            DaemonCheck::Probe
        } else {
            check
        },
{
    if dropped {
        DaemonCheck::Probe
    } else {
        check
    }
}

// ---------------------------------------------------------------------------
// All panes of a session.

pub open spec fn pane_views(panes: Seq<&PaneState>) -> Seq<PaneView> {
    Seq::new(panes.len(), |i: int| panes[i]@)
}

/// Appends the panes of a tree.
fn collect_leaves<'a>(node: &'a LayoutNode, out: &mut Vec<&'a PaneState>)
    ensures
        pane_views(final(out)@) == pane_views(old(out)@) + leaves(node@),
    decreases *node,
{
    match node {
        LayoutNode::Leaf(pane) => {
            out.push(pane);
            assert(pane_views(out@) =~= pane_views(old(out)@) + leaves(node@));
        },
        LayoutNode::Split { children, .. } => {
            let ghost kids = node@->children;
            let mut i: usize = 0;
            assert(pane_views(out@) =~= pane_views(old(out)@) + leaves_of(kids, 0));
            while i < children.len()
                invariant
                    i <= children@.len(),
                    *node matches LayoutNode::Split { children: c, .. } && c == *children,
                    kids == node@->children,
                    kids.len() == children@.len(),
                    pane_views(out@) == pane_views(old(out)@) + leaves_of(kids, i as nat),
                decreases children.len() - i,
            {
                let child = &children[i];
                assert(kids[i as int] == (child.0, child.1@));
                collect_leaves(&child.1, out);
                i = i + 1;
                assert(pane_views(out@) =~= pane_views(old(out)@) + leaves_of(kids, i as nat));
            }
        },
    }
}

fn collect_tabs<'a>(tabs: &'a Vec<TabState>, out: &mut Vec<&'a PaneState>)
    ensures
        pane_views(final(out)@) == pane_views(old(out)@) + tab_panes(tab_states(tabs@)),
{
    let ghost all = tab_states(tabs@);
    let mut i: usize = 0;
    assert(all.take(0) =~= Seq::<TabStateView>::empty());
    assert(pane_views(out@) =~= pane_views(old(out)@) + tab_panes(all.take(0)));
    while i < tabs.len()
        invariant
            i <= tabs@.len(),
            all == tab_states(tabs@),
            pane_views(out@) == pane_views(old(out)@) + tab_panes(all.take(i as int)),
        decreases tabs.len() - i,
    {
        assert(all[i as int] == tabs@[i as int]@);
        collect_leaves(&tabs[i].layout, out);
        assert(all.take(i + 1).drop_last() =~= all.take(i as int));
        i = i + 1;
        assert(pane_views(out@) =~= pane_views(old(out)@) + tab_panes(all.take(i as int)));
    }
    assert(all.take(i as int) =~= all);
}

/// The panes of windows.
fn panes_of<'a>(windows: &'a Vec<WindowState>) -> (out: Vec<&'a PaneState>)
    ensures
        pane_views(out@) == window_panes(window_states(windows@)),
{
    let mut out: Vec<&'a PaneState> = Vec::new();
    let ghost all = window_states(windows@);
    let mut i: usize = 0;
    assert(all.take(0) =~= Seq::<WindowView>::empty());
    assert(pane_views(out@) =~= window_panes(all.take(0)));
    while i < windows.len()
        invariant
            i <= windows@.len(),
            all == window_states(windows@),
            pane_views(out@) == window_panes(all.take(i as int)),
        decreases windows.len() - i,
    {
        assert(all[i as int] == windows@[i as int]@);
        collect_tabs(&windows[i].tabs, &mut out);
        assert(all.take(i + 1).drop_last() =~= all.take(i as int));
        i = i + 1;
        assert(pane_views(out@) =~= window_panes(all.take(i as int)));
    }
    assert(all.take(i as int) =~= all);
    out
}

/// Whether a text is among others.
pub fn among(all: &Vec<String>, text: &str) -> (found: bool)
    ensures
        found == texts(all@).contains(text@),
{
    let mut i: usize = 0;
    while i < all.len()
        invariant
            i <= all@.len(),
            forall|j: int| 0 <= j < i ==> (#[trigger] texts(all@)[j]) != text@,
        decreases all.len() - i,
    {
        if same_text(all[i].as_str(), text) {
            assert(texts(all@)[i as int] == text@);
            return true;
        }
        assert(texts(all@)[i as int] != text@);
        i = i + 1;
    }
    false
}

/// The ids that panes refer to.
pub open spec fn ids_of(panes: Seq<PaneView>) -> Seq<Seq<char>>
    decreases panes.len(),
{
    if panes.len() == 0 {
        Seq::empty()
    } else {
        let before = ids_of(panes.drop_last());
        match panes.last().pane_id {
            Some(id) => before.push(id),
            None => before,
        }
    }
}

/// The ids of all panes in windows.
pub fn pane_ids(windows: &Vec<WindowState>) -> (ids: Vec<String>)
    ensures
        texts(ids@) == ids_of(window_panes(window_states(windows@))),
{
    let panes = panes_of(windows);
    let ghost all = pane_views(panes@);
    let mut ids: Vec<String> = Vec::new();
    let mut i: usize = 0;
    assert(all.take(0) =~= Seq::<PaneView>::empty());
    assert(texts(ids@) =~= ids_of(all.take(0)));
    while i < panes.len()
        invariant
            i <= panes@.len(),
            all == pane_views(panes@),
            texts(ids@) == ids_of(all.take(i as int)),
        decreases panes.len() - i,
    {
        let ghost before = ids@;
        assert(all.take(i + 1).drop_last() =~= all.take(i as int));
        assert(all.take(i + 1).last() == panes@[i as int]@);
        if let Some(id) = &panes[i].pane_id {
            ids.push(id.clone());
            assert(texts(ids@) =~= texts(before).push(id@));
        }
        i = i + 1;
        assert(texts(ids@) == ids_of(all.take(i as int)));
    }
    assert(all.take(i as int) =~= all);
    ids
}

// ---------------------------------------------------------------------------
// Discarding.

/// The sockets of local daemons that panes refer to, but for those to spare.
pub open spec fn sockets_to_kill(panes: Seq<PaneView>, spare: Seq<Seq<char>>) -> Seq<Seq<char>>
    decreases panes.len(),
{
    if panes.len() == 0 {
        Seq::empty()
    } else {
        let before = sockets_to_kill(panes.drop_last(), spare);
        let pane = panes.last();
        match pane.socket {
            Some(socket) => if pane.host is None && !spare.contains(socket) {
                before.push(socket)
            } else {
                before
            },
            None => before,
        }
    }
}

/// The sockets of daemons that end when a saved session is discarded: the local
/// ones that it refers to, but for those to spare. Daemons of other machines are
/// theirs to end.
pub fn saved_session_kill_targets(state: &SessionState, spare: &Vec<String>) -> (sockets: Vec<
    String,
>)
    ensures
        texts(sockets@) == sockets_to_kill(window_panes(state@.windows), texts(spare@)),
{
    let panes = panes_of(&state.windows);
    let ghost all = pane_views(panes@);
    let mut sockets: Vec<String> = Vec::new();
    let mut i: usize = 0;
    assert(all.take(0) =~= Seq::<PaneView>::empty());
    assert(texts(sockets@) =~= sockets_to_kill(all.take(0), texts(spare@)));
    while i < panes.len()
        invariant
            i <= panes@.len(),
            all == pane_views(panes@),
            texts(sockets@) == sockets_to_kill(all.take(i as int), texts(spare@)),
        decreases panes.len() - i,
    {
        let ghost before = sockets@;
        assert(all.take(i + 1).drop_last() =~= all.take(i as int));
        assert(all.take(i + 1).last() == panes@[i as int]@);
        let pane: &PaneState = panes[i];
        if pane.host.is_none() {
            if let Some(socket) = &pane.socket {
                if !among(spare, socket.as_str()) {
                    sockets.push(socket.clone());
                    assert(texts(sockets@) =~= texts(before).push(socket@));
                }
            }
        }
        i = i + 1;
        assert(texts(sockets@) == sockets_to_kill(all.take(i as int), texts(spare@)));
    }
    assert(all.take(i as int) =~= all);
    sockets
}

/// Discarding a session ends exactly the local daemons it refers to that are not
/// spared.
pub proof fn law_discard_ends_the_local_daemons(
    panes: Seq<PaneView>,
    spare: Seq<Seq<char>>,
    socket: Seq<char>,
)
    ensures
        sockets_to_kill(panes, spare).contains(socket) <==> !spare.contains(socket) && exists|i: int|
            0 <= i < panes.len() && (#[trigger] panes[i]).socket == Some(socket) && panes[i].host is None,
    decreases panes.len(),
{
    if panes.len() > 0 {
        let init = panes.drop_last();
        law_discard_ends_the_local_daemons(init, spare, socket);
        let before = sockets_to_kill(init, spare);
        let all = sockets_to_kill(panes, spare);
        let last = panes.last();
        if before.contains(socket) {
            let k = before.index_of(socket);
            assert(all[k] == socket);
            let i = choose|i: int|
                0 <= i < init.len() && (#[trigger] init[i]).socket == Some(socket)
                    && init[i].host is None;
            assert(panes[i] == init[i]);
        } else if all.contains(socket) {
            let k = all.index_of(socket);
            assert(k == before.len());
            assert(panes[panes.len() - 1] == last);
        } else if !spare.contains(socket) && exists|i: int|
            0 <= i < panes.len() && (#[trigger] panes[i]).socket == Some(socket)
                && panes[i].host is None {
            let i = choose|i: int|
                0 <= i < panes.len() && (#[trigger] panes[i]).socket == Some(socket)
                    && panes[i].host is None;
            if i < init.len() {
                assert(init[i] == panes[i]);
            } else {
                assert(all.last() == socket);
                assert(all[all.len() - 1] == socket);
            }
        }
    }
}

// ---------------------------------------------------------------------------
// Carrying over.

/// Whether a pane refers to a local daemon that is not attached to already.
pub open spec fn is_candidate(pane: PaneView, already: Seq<Seq<char>>) -> bool {
    match (pane.pane_id, pane.socket) {
        (Some(id), Some(socket)) => pane.host is None && !already.contains(id),
        _ => false,
    }
}

/// Whether a pane refers to a live local daemon that is not attached to already.
/// `live` are the sockets that answered.
pub open spec fn is_live(
    pane: PaneView,
    already: Seq<Seq<char>>,
    check: DaemonCheck,
    live: Seq<Seq<char>>,
) -> bool {
    is_candidate(pane, already) && (check == DaemonCheck::AssumeAlive || live.contains(
        pane.socket->0,
    ))
}

fn candidate(pane: &PaneState, already: &Vec<String>) -> (found: bool)
    ensures
        found == is_candidate(pane@, texts(already@)),
{
    match &pane.pane_id {
        Some(id) => pane.socket.is_some() && pane.host.is_none() && !among(already, id.as_str()),
        None => false,
    }
}

fn leaf_alive(
    pane: &PaneState,
    already: &Vec<String>,
    check: DaemonCheck,
    live: &Vec<String>,
) -> (alive: bool)
    ensures
        alive == is_live(pane@, texts(already@), check, texts(live@)),
{
    if !candidate(pane, already) {
        return false;
    }
    if check == DaemonCheck::AssumeAlive {
        return true;
    }
    match &pane.socket {
        Some(socket) => among(live, socket.as_str()),
        None => false,
    }
}

/// The sockets to connect to before a save that probes.
pub open spec fn sockets_to_probe(panes: Seq<PaneView>, already: Seq<Seq<char>>) -> Seq<Seq<char>>
    decreases panes.len(),
{
    if panes.len() == 0 {
        Seq::empty()
    } else {
        let before = sockets_to_probe(panes.drop_last(), already);
        if is_candidate(panes.last(), already) {
            before.push(panes.last().socket->0)
        } else {
            before
        }
    }
}

/// The sockets to connect to before a save of `windows` over an old session.
pub fn probe_targets(old: &SessionState, windows: &Vec<WindowState>) -> (sockets: Vec<String>)
    ensures
        texts(sockets@) == sockets_to_probe(
            window_panes(old@.windows),
            ids_of(window_panes(window_states(windows@))),
        ),
{
    let already = pane_ids(windows);
    let panes = panes_of(&old.windows);
    let ghost all = pane_views(panes@);
    let mut sockets: Vec<String> = Vec::new();
    let mut i: usize = 0;
    assert(all.take(0) =~= Seq::<PaneView>::empty());
    assert(texts(sockets@) =~= sockets_to_probe(all.take(0), texts(already@)));
    while i < panes.len()
        invariant
            i <= panes@.len(),
            all == pane_views(panes@),
            texts(sockets@) == sockets_to_probe(all.take(i as int), texts(already@)),
        decreases panes.len() - i,
    {
        let ghost before = sockets@;
        assert(all.take(i + 1).drop_last() =~= all.take(i as int));
        assert(all.take(i + 1).last() == panes@[i as int]@);
        let pane: &PaneState = panes[i];
        if candidate(pane, &already) {
            if let Some(socket) = &pane.socket {
                sockets.push(socket.clone());
                assert(texts(sockets@) =~= texts(before).push(socket@));
            }
        }
        i = i + 1;
        assert(texts(sockets@) == sockets_to_probe(all.take(i as int), texts(already@)));
    }
    assert(all.take(i as int) =~= all);
    sockets
}

/// Whether all panes of a tree are live, so that it can come back as it was.
pub open spec fn fully_live(
    node: LayoutView,
    already: Seq<Seq<char>>,
    check: DaemonCheck,
    live: Seq<Seq<char>>,
) -> bool
    decreases node,
{
    match node {
        LayoutView::Leaf(pane) => is_live(pane, already, check, live),
        LayoutView::Split { children, .. } => children.len() > 0 && forall|i: int|
            0 <= i < children.len() ==> fully_live(
                (#[trigger] children[i]).1,
                already,
                check,
                live,
            ),
    }
}

fn tab_is_fully_live(
    node: &LayoutNode,
    already: &Vec<String>,
    check: DaemonCheck,
    live: &Vec<String>,
) -> (all_live: bool)
    ensures
        all_live == fully_live(node@, texts(already@), check, texts(live@)),
    decreases *node,
{
    match node {
        LayoutNode::Leaf(pane) => leaf_alive(pane, already, check, live),
        LayoutNode::Split { children, .. } => {
            if children.len() == 0 {
                return false;
            }
            let ghost kids = node@->children;
            let mut i: usize = 0;
            while i < children.len()
                invariant
                    i <= children@.len(),
                    *node matches LayoutNode::Split { children: c, .. } && c == *children,
                    node@ is Split,
                    kids == node@->children,
                    kids.len() == children@.len(),
                    forall|j: int|
                        0 <= j < i ==> fully_live(
                            (#[trigger] kids[j]).1,
                            texts(already@),
                            check,
                            texts(live@),
                        ),
                decreases children.len() - i,
            {
                let child = &children[i];
                assert(kids[i as int] == (child.0, child.1@));
                if !tab_is_fully_live(&child.1, already, check, live) {
                    return false;
                }
                i = i + 1;
            }
            true
        },
    }
}

/// A pane as a tab of its own.
pub open spec fn rescued_tab(pane: PaneView) -> TabStateView {
    TabStateView {
        layout: LayoutView::Leaf(PaneView { is_active: true, ..pane }),
        custom_title: None,
    }
}

/// The live ones among panes, each as a tab of its own.
pub open spec fn rescued(
    panes: Seq<PaneView>,
    already: Seq<Seq<char>>,
    check: DaemonCheck,
    live: Seq<Seq<char>>,
) -> Seq<TabStateView>
    decreases panes.len(),
{
    if panes.len() == 0 {
        Seq::empty()
    } else {
        let before = rescued(panes.drop_last(), already, check, live);
        if is_live(panes.last(), already, check, live) {
            before.push(rescued_tab(panes.last()))
        } else {
            before
        }
    }
}

/// What is carried over of a tab: the tab where it is live as a whole, else its
/// live panes.
pub open spec fn carried_tab(
    tab: TabStateView,
    already: Seq<Seq<char>>,
    check: DaemonCheck,
    live: Seq<Seq<char>>,
) -> Seq<TabStateView> {
    if fully_live(tab.layout, already, check, live) {
        seq![tab]
    } else {
        rescued(leaves(tab.layout), already, check, live)
    }
}

/// What is carried over of tabs.
pub open spec fn carried_tabs(
    tabs: Seq<TabStateView>,
    already: Seq<Seq<char>>,
    check: DaemonCheck,
    live: Seq<Seq<char>>,
) -> Seq<TabStateView>
    decreases tabs.len(),
{
    if tabs.len() == 0 {
        Seq::empty()
    } else {
        carried_tabs(tabs.drop_last(), already, check, live) + carried_tab(
            tabs.last(),
            already,
            check,
            live,
        )
    }
}

/// What is carried over of windows.
pub open spec fn carried_windows(
    windows: Seq<WindowView>,
    already: Seq<Seq<char>>,
    check: DaemonCheck,
    live: Seq<Seq<char>>,
) -> Seq<TabStateView>
    decreases windows.len(),
{
    if windows.len() == 0 {
        Seq::empty()
    } else {
        carried_windows(windows.drop_last(), already, check, live) + carried_tabs(
            windows.last().tabs,
            already,
            check,
            live,
        )
    }
}

fn collect_live_leaves(
    layout: &LayoutNode,
    already: &Vec<String>,
    check: DaemonCheck,
    live: &Vec<String>,
    kept: &mut Vec<TabState>,
)
    ensures
        tab_states(final(kept)@) == tab_states(old(kept)@) + rescued(
            leaves(layout@),
            texts(already@),
            check,
            texts(live@),
        ),
{
    let mut panes: Vec<&PaneState> = Vec::new();
    assert(pane_views(panes@) =~= Seq::<PaneView>::empty());
    collect_leaves(layout, &mut panes);
    let ghost all = pane_views(panes@);
    assert(all =~= leaves(layout@));
    let mut i: usize = 0;
    assert(all.take(0) =~= Seq::<PaneView>::empty());
    assert(tab_states(kept@) =~= tab_states(old(kept)@) + rescued(
        all.take(0),
        texts(already@),
        check,
        texts(live@),
    ));
    while i < panes.len()
        invariant
            i <= panes@.len(),
            all == pane_views(panes@),
            tab_states(kept@) == tab_states(old(kept)@) + rescued(
                all.take(i as int),
                texts(already@),
                check,
                texts(live@),
            ),
        decreases panes.len() - i,
    {
        let ghost before = kept@;
        assert(all.take(i + 1).drop_last() =~= all.take(i as int));
        assert(all.take(i + 1).last() == panes@[i as int]@);
        let pane: &PaneState = panes[i];
        if leaf_alive(pane, already, check, live) {
            let mut copy = pane.duplicate();
            copy.is_active = true;
            let tab = TabState { layout: LayoutNode::Leaf(copy), custom_title: None };
            assert(tab@ =~= rescued_tab(pane@));
            kept.push(tab);
            assert(tab_states(kept@) =~= tab_states(before).push(rescued_tab(pane@)));
        }
        i = i + 1;
        assert(tab_states(kept@) =~= tab_states(old(kept)@) + rescued(
            all.take(i as int),
            texts(already@),
            check,
            texts(live@),
        ));
    }
    assert(all.take(i as int) =~= all);
}

/// What is carried over of an old session.
fn kept_tabs(old: SessionState, already: &Vec<String>, check: DaemonCheck, live: &Vec<String>) -> (
kept: Vec<TabState>)
    ensures
        tab_states(kept@) == carried_windows(
            old@.windows,
            texts(already@),
            check,
            texts(live@),
        ),
{
    let mut kept: Vec<TabState> = Vec::new();
    let ghost a = texts(already@);
    let ghost l = texts(live@);
    let ghost held = old.windows@;
    let ghost all = window_states(held);
    assert(all == old@.windows);
    assert(all.take(0) =~= Seq::<WindowView>::empty());
    assert(tab_states(kept@) =~= carried_windows(all.take(0), a, check, l));
    for w in it: old.windows
        invariant
            it.seq() == held,
            all == window_states(held),
            a == texts(already@),
            l == texts(live@),
            tab_states(kept@) == carried_windows(all.take(it.index() as int), a, check, l),
    {
        let ghost k = it.index() as int;
        assert(w == held[k]);
        assert(all[k] == w@);
        let ghost start = tab_states(kept@);
        let ghost tabs_held = w.tabs@;
        let ghost tabs = tab_states(tabs_held);
        assert(tabs.take(0) =~= Seq::<TabStateView>::empty());
        assert(start + carried_tabs(tabs.take(0), a, check, l) =~= start);
        for tab in jt: w.tabs
            invariant
                jt.seq() == tabs_held,
                tabs == tab_states(tabs_held),
                a == texts(already@),
                l == texts(live@),
                tab_states(kept@) == start + carried_tabs(
                    tabs.take(jt.index() as int),
                    a,
                    check,
                    l,
                ),
        {
            let ghost m = jt.index() as int;
            assert(tab == tabs_held[m]);
            assert(tabs[m] == tab@);
            assert(tabs.take(m + 1).drop_last() =~= tabs.take(m));
            assert(tabs.take(m + 1).last() == tab@);
            let ghost before = kept@;
            let ghost value = tab@;
            if tab_is_fully_live(&tab.layout, already, check, live) {
                kept.push(tab);
                assert(tab_states(kept@) =~= tab_states(before) + seq![value]);
            } else {
                collect_live_leaves(&tab.layout, already, check, live, &mut kept);
            }
            assert(tab_states(kept@) =~= start + carried_tabs(tabs.take(m + 1), a, check, l));
        }
        assert(tabs.take(tabs.len() as int) =~= tabs);
        assert(all.take(k + 1).drop_last() =~= all.take(k));
        assert(all.take(k + 1).last() == all[k]);
    }
    assert(all.take(all.len() as int) =~= all);
    kept
}

/// The session that is written: the windows, with what is carried over of the
/// old session behind the tabs of the first.
pub open spec fn merged(
    windows: Seq<WindowView>,
    old: Option<SessionView>,
    check: DaemonCheck,
    live: Seq<Seq<char>>,
) -> SessionView {
    let kept = match old {
        Some(o) => carried_windows(o.windows, ids_of(window_panes(windows)), check, live),
        None => Seq::empty(),
    };
    SessionView {
        version: SESSION_VERSION,
        windows: windows.update(0, WindowView { tabs: windows[0].tabs + kept, ..windows[0] }),
    }
}

pub open spec fn session_view(state: Option<SessionState>) -> Option<SessionView> {
    match state {
        Some(s) => Some(s@),
        None => None,
    }
}

/// The session that is written for windows, over an old one where there is one.
/// Nothing is written for no windows. `live` are the sockets that answered.
pub fn assemble(
    windows: Vec<WindowState>,
    old: Option<SessionState>,
    check: DaemonCheck,
    live: &Vec<String>,
) -> (state: Option<SessionState>)
    ensures
        match state {
            Some(s) => windows@.len() > 0 && s@ == merged(
                window_states(windows@),
                session_view(old),
                check,
                texts(live@),
            ),
            None => windows@.len() == 0,
        },
{
    if windows.len() == 0 {
        return None;
    }
    let ghost views = window_states(windows@);
    let ghost goal = merged(views, session_view(old), check, texts(live@));
    let already = pane_ids(&windows);
    let mut kept: Vec<TabState> = match old {
        Some(o) => kept_tabs(o, &already, check, live),
        None => Vec::new(),
    };
    let ghost extra = tab_states(kept@);
    assert(old is None ==> extra =~= Seq::<TabStateView>::empty());
    let mut windows = windows;
    let mut first = windows.remove(0);
    let ghost before = first@;
    first.tabs.append(&mut kept);
    assert(first@.tabs =~= before.tabs + extra);
    windows.insert(0, first);
    assert(window_states(windows@) =~= goal.windows);
    Some(SessionState { version: SESSION_VERSION, windows })
}

} // verus!
