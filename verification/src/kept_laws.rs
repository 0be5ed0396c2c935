//! Laws on what a save carries over: no live daemon is left without a file that
//! refers to it, and no dead one is kept.
use crate::kept::{
    carried_tab, carried_tabs, carried_windows, fully_live, ids_of, is_live, merged, rescued,
    rescued_tab, DaemonCheck,
};
use crate::session::{
    leaves, leaves_of, tab_panes, window_panes, LayoutView, PaneView, SessionView, TabStateView,
    WindowView,
};
use vstd::prelude::*;

verus! {

/// Whether a daemon is referred to.
pub open spec fn refers_to(panes: Seq<PaneView>, id: Seq<char>, socket: Seq<char>) -> bool {
    exists|i: int| #[trigger]
        is_reference(panes, i, id, socket)
}

pub open spec fn is_reference(panes: Seq<PaneView>, i: int, id: Seq<char>, socket: Seq<char>) -> bool {
    0 <= i < panes.len() && panes[i].pane_id == Some(id) && panes[i].socket == Some(socket)
}

proof fn lemma_refers_in_sum(a: Seq<PaneView>, b: Seq<PaneView>, id: Seq<char>, socket: Seq<char>)
    ensures
        refers_to(a + b, id, socket) <==> refers_to(a, id, socket) || refers_to(b, id, socket),
{
    if refers_to(a, id, socket) {
        let i = choose|i: int| #[trigger] is_reference(a, i, id, socket);
        assert(is_reference(a + b, i, id, socket));
    }
    if refers_to(b, id, socket) {
        let i = choose|i: int| #[trigger] is_reference(b, i, id, socket);
        assert(is_reference(a + b, a.len() + i, id, socket));
    }
    if refers_to(a + b, id, socket) {
        let i = choose|i: int| #[trigger] is_reference(a + b, i, id, socket);
        if i < a.len() {
            assert(is_reference(a, i, id, socket));
        } else {
            assert(is_reference(b, i - a.len(), id, socket));
        }
    }
}

proof fn lemma_tab_panes_sum(a: Seq<TabStateView>, b: Seq<TabStateView>)
    ensures
        tab_panes(a + b) == tab_panes(a) + tab_panes(b),
    decreases b.len(),
{
    if b.len() == 0 {
        assert(a + b =~= a);
        assert(tab_panes(a) + tab_panes(b) =~= tab_panes(a));
    } else {
        lemma_tab_panes_sum(a, b.drop_last());
        assert((a + b).drop_last() =~= a + b.drop_last());
        assert(tab_panes(a + b) =~= tab_panes(a) + tab_panes(b));
    }
}

proof fn lemma_one_tab(tab: TabStateView)
    ensures
        tab_panes(seq![tab]) == leaves(tab.layout),
{
    assert(seq![tab].drop_last() =~= Seq::<TabStateView>::empty());
    assert(tab_panes(seq![tab].drop_last()) =~= Seq::<PaneView>::empty());
    assert(tab_panes(seq![tab]) =~= leaves(tab.layout));
}

proof fn lemma_rescued_refers(
    panes: Seq<PaneView>,
    already: Seq<Seq<char>>,
    check: DaemonCheck,
    live: Seq<Seq<char>>,
    i: int,
)
    requires
        0 <= i < panes.len(),
        is_live(panes[i], already, check, live),
    ensures
        refers_to(
            tab_panes(rescued(panes, already, check, live)),
            panes[i].pane_id->0,
            panes[i].socket->0,
        ),
    decreases panes.len(),
{
    let init = panes.drop_last();
    let before = rescued(init, already, check, live);
    let id = panes[i].pane_id->0;
    let socket = panes[i].socket->0;
    if is_live(panes.last(), already, check, live) {
        let tab = rescued_tab(panes.last());
        assert(before.push(tab) =~= before + seq![tab]);
        lemma_tab_panes_sum(before, seq![tab]);
        lemma_one_tab(tab);
        lemma_refers_in_sum(tab_panes(before), leaves(tab.layout), id, socket);
        if i == panes.len() - 1 {
            assert(is_reference(leaves(tab.layout), 0, id, socket));
        }
    }
    if i < panes.len() - 1 {
        assert(init[i] == panes[i]);
        lemma_rescued_refers(init, already, check, live, i);
    }
}

proof fn lemma_carried_tab_refers(
    tab: TabStateView,
    already: Seq<Seq<char>>,
    check: DaemonCheck,
    live: Seq<Seq<char>>,
    i: int,
)
    requires
        0 <= i < leaves(tab.layout).len(),
        is_live(leaves(tab.layout)[i], already, check, live),
    ensures
        refers_to(
            tab_panes(carried_tab(tab, already, check, live)),
            leaves(tab.layout)[i].pane_id->0,
            leaves(tab.layout)[i].socket->0,
        ),
{
    let panes = leaves(tab.layout);
    if fully_live(tab.layout, already, check, live) {
        lemma_one_tab(tab);
        assert(is_reference(panes, i, panes[i].pane_id->0, panes[i].socket->0));
    } else {
        lemma_rescued_refers(panes, already, check, live, i);
    }
}

proof fn lemma_carried_tabs_refer(
    tabs: Seq<TabStateView>,
    already: Seq<Seq<char>>,
    check: DaemonCheck,
    live: Seq<Seq<char>>,
    i: int,
)
    requires
        0 <= i < tab_panes(tabs).len(),
        is_live(tab_panes(tabs)[i], already, check, live),
    ensures
        refers_to(
            tab_panes(carried_tabs(tabs, already, check, live)),
            tab_panes(tabs)[i].pane_id->0,
            tab_panes(tabs)[i].socket->0,
        ),
    decreases tabs.len(),
{
    let init = tabs.drop_last();
    let last = tabs.last();
    let id = tab_panes(tabs)[i].pane_id->0;
    let socket = tab_panes(tabs)[i].socket->0;
    let a = carried_tabs(init, already, check, live);
    let b = carried_tab(last, already, check, live);
    lemma_tab_panes_sum(a, b);
    lemma_refers_in_sum(tab_panes(a), tab_panes(b), id, socket);
    if i < tab_panes(init).len() {
        assert(tab_panes(tabs)[i] == tab_panes(init)[i]);
        lemma_carried_tabs_refer(init, already, check, live, i);
    } else {
        let j = i - tab_panes(init).len();
        assert(tab_panes(tabs)[i] == leaves(last.layout)[j]);
        lemma_carried_tab_refers(last, already, check, live, j);
    }
}

proof fn lemma_carried_windows_refer(
    windows: Seq<WindowView>,
    already: Seq<Seq<char>>,
    check: DaemonCheck,
    live: Seq<Seq<char>>,
    i: int,
)
    requires
        0 <= i < window_panes(windows).len(),
        is_live(window_panes(windows)[i], already, check, live),
    ensures
        refers_to(
            tab_panes(carried_windows(windows, already, check, live)),
            window_panes(windows)[i].pane_id->0,
            window_panes(windows)[i].socket->0,
        ),
    decreases windows.len(),
{
    let init = windows.drop_last();
    let last = windows.last();
    let id = window_panes(windows)[i].pane_id->0;
    let socket = window_panes(windows)[i].socket->0;
    let a = carried_windows(init, already, check, live);
    let b = carried_tabs(last.tabs, already, check, live);
    lemma_tab_panes_sum(a, b);
    lemma_refers_in_sum(tab_panes(a), tab_panes(b), id, socket);
    if i < window_panes(init).len() {
        assert(window_panes(windows)[i] == window_panes(init)[i]);
        lemma_carried_windows_refer(init, already, check, live, i);
    } else {
        let j = i - window_panes(init).len();
        assert(window_panes(windows)[i] == tab_panes(last.tabs)[j]);
        lemma_carried_tabs_refer(last.tabs, already, check, live, j);
    }
}

proof fn lemma_window_refers(windows: Seq<WindowView>, k: int, id: Seq<char>, socket: Seq<char>)
    requires
        0 <= k < windows.len(),
        refers_to(tab_panes(windows[k].tabs), id, socket),
    ensures
        refers_to(window_panes(windows), id, socket),
    decreases windows.len(),
{
    let init = windows.drop_last();
    lemma_refers_in_sum(window_panes(init), tab_panes(windows.last().tabs), id, socket);
    if k < windows.len() - 1 {
        assert(init[k] == windows[k]);
        lemma_window_refers(init, k, id, socket);
    }
}

/// A save over an old session leaves no live daemon behind: every one that the
/// old session refers to, and that no window has attached to, is referred to by
/// what is written.
pub proof fn law_no_daemon_is_orphaned(
    windows: Seq<WindowView>,
    old: SessionView,
    check: DaemonCheck,
    live: Seq<Seq<char>>,
    i: int,
)
    requires
        windows.len() > 0,
        0 <= i < window_panes(old.windows).len(),
        is_live(window_panes(old.windows)[i], ids_of(window_panes(windows)), check, live),
    ensures
        refers_to(
            window_panes(merged(windows, Some(old), check, live).windows),
            window_panes(old.windows)[i].pane_id->0,
            window_panes(old.windows)[i].socket->0,
        ),
{
    let already = ids_of(window_panes(windows));
    let id = window_panes(old.windows)[i].pane_id->0;
    let socket = window_panes(old.windows)[i].socket->0;
    let kept = carried_windows(old.windows, already, check, live);
    lemma_carried_windows_refer(old.windows, already, check, live, i);
    let after = merged(windows, Some(old), check, live);
    assert(after.windows[0].tabs == windows[0].tabs + kept);
    lemma_tab_panes_sum(windows[0].tabs, kept);
    lemma_refers_in_sum(tab_panes(windows[0].tabs), tab_panes(kept), id, socket);
    lemma_window_refers(after.windows, 0, id, socket);
}

/// What the windows themselves refer to is written as well.
pub proof fn law_open_panes_are_saved(
    windows: Seq<WindowView>,
    old: Option<SessionView>,
    check: DaemonCheck,
    live: Seq<Seq<char>>,
    k: int,
    id: Seq<char>,
    socket: Seq<char>,
)
    requires
        0 <= k < windows.len(),
        refers_to(tab_panes(windows[k].tabs), id, socket),
    ensures
        refers_to(window_panes(merged(windows, old, check, live).windows), id, socket),
{
    let after = merged(windows, old, check, live);
    let kept = match old {
        Some(o) => carried_windows(o.windows, ids_of(window_panes(windows)), check, live),
        None => Seq::empty(),
    };
    assert(after.windows[0].tabs == windows[0].tabs + kept);
    lemma_tab_panes_sum(windows[0].tabs, kept);
    lemma_refers_in_sum(tab_panes(windows[0].tabs), tab_panes(kept), id, socket);
    lemma_window_refers(after.windows, k, id, socket);
}

/// Whether all panes are live.
pub open spec fn all_live(
    panes: Seq<PaneView>,
    already: Seq<Seq<char>>,
    check: DaemonCheck,
    live: Seq<Seq<char>>,
) -> bool {
    forall|i: int| 0 <= i < panes.len() ==> is_live(#[trigger] panes[i], already, check, live)
}

proof fn lemma_leaves_of_live_tree(
    node: LayoutView,
    already: Seq<Seq<char>>,
    check: DaemonCheck,
    live: Seq<Seq<char>>,
)
    requires
        fully_live(node, already, check, live),
    ensures
        all_live(leaves(node), already, check, live),
    decreases node, 1int, 0nat,
{
    match node {
        LayoutView::Leaf(pane) => {
            assert(leaves(node) =~= seq![pane]);
        },
        LayoutView::Split { children, .. } => {
            lemma_leaves_of_live_trees(children, children.len(), already, check, live);
        },
    }
}

proof fn lemma_leaves_of_live_trees(
    children: Seq<(u32, LayoutView)>,
    n: nat,
    already: Seq<Seq<char>>,
    check: DaemonCheck,
    live: Seq<Seq<char>>,
)
    requires
        n <= children.len(),
        forall|i: int|
            0 <= i < children.len() ==> fully_live(
                (#[trigger] children[i]).1,
                already,
                check,
                live,
            ),
    ensures
        all_live(leaves_of(children, n), already, check, live),
    decreases children, 0int, n,
{
    if n > 0 {
        lemma_leaves_of_live_trees(children, (n - 1) as nat, already, check, live);
        assert(fully_live(children[n - 1].1, already, check, live));
        lemma_leaves_of_live_tree(children[n - 1].1, already, check, live);
        let a = leaves_of(children, (n - 1) as nat);
        let b = leaves(children[n - 1].1);
        assert(leaves_of(children, n) =~= a + b);
    }
}

proof fn lemma_rescued_live(
    panes: Seq<PaneView>,
    already: Seq<Seq<char>>,
    check: DaemonCheck,
    live: Seq<Seq<char>>,
)
    ensures
        all_live(tab_panes(rescued(panes, already, check, live)), already, check, live),
    decreases panes.len(),
{
    if panes.len() > 0 {
        let init = panes.drop_last();
        lemma_rescued_live(init, already, check, live);
        if is_live(panes.last(), already, check, live) {
            let before = rescued(init, already, check, live);
            let tab = rescued_tab(panes.last());
            assert(before.push(tab) =~= before + seq![tab]);
            lemma_tab_panes_sum(before, seq![tab]);
            lemma_one_tab(tab);
            assert(leaves(tab.layout)[0] == PaneView { is_active: true, ..panes.last() });
        }
    }
}

proof fn lemma_carried_tabs_live(
    tabs: Seq<TabStateView>,
    already: Seq<Seq<char>>,
    check: DaemonCheck,
    live: Seq<Seq<char>>,
)
    ensures
        all_live(tab_panes(carried_tabs(tabs, already, check, live)), already, check, live),
    decreases tabs.len(),
{
    if tabs.len() > 0 {
        let init = tabs.drop_last();
        let last = tabs.last();
        lemma_carried_tabs_live(init, already, check, live);
        lemma_tab_panes_sum(
            carried_tabs(init, already, check, live),
            carried_tab(last, already, check, live),
        );
        if fully_live(last.layout, already, check, live) {
            lemma_one_tab(last);
            lemma_leaves_of_live_tree(last.layout, already, check, live);
        } else {
            lemma_rescued_live(leaves(last.layout), already, check, live);
        }
    }
}

/// Only live daemons are carried over: those that are dead, attached to already
/// or on other machines are not.
pub proof fn law_only_live_daemons_are_carried(
    windows: Seq<WindowView>,
    already: Seq<Seq<char>>,
    check: DaemonCheck,
    live: Seq<Seq<char>>,
)
    ensures
        all_live(tab_panes(carried_windows(windows, already, check, live)), already, check, live),
    decreases windows.len(),
{
    if windows.len() > 0 {
        law_only_live_daemons_are_carried(windows.drop_last(), already, check, live);
        lemma_carried_tabs_live(windows.last().tabs, already, check, live);
        lemma_tab_panes_sum(
            carried_windows(windows.drop_last(), already, check, live),
            carried_tabs(windows.last().tabs, already, check, live),
        );
    }
}

} // verus!
