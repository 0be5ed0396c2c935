//! The tabs of a window: which is shown, in what order they stand, and what a
//! closed shell takes with it.
use smallvec::SmallVec;
use vstd::prelude::*;

verus! {

/// How many tabs a window holds, unless set.
pub const DEFAULT_CONTEXT_CAPACITY: usize = 28;

/// How long titles are left alone, in milliseconds.
pub const TITLE_INTERVAL_MILLIS: u64 = 2000;

/// One shell in a tab.
#[derive(Clone, Debug)]
pub struct Pane {
    pub route_id: usize,
    pub rich_text_id: usize,
    pub title: String,
}

/// One tab: its panes in the order they are shown, and which of them has the
/// keyboard. Colors are bit patterns of single-precision numbers.
#[derive(Clone, Debug)]
pub struct Tab {
    pub panes: Vec<Pane>,
    pub current: usize,
    pub custom_title: Option<String>,
    pub custom_color: Option<[u32; 4]>,
}

/// The mathematical value of a [`Tab`].
#[verifier::ext_equal]
pub struct TabView {
    pub panes: Seq<Pane>,
    pub current: int,
    pub custom_title: Option<String>,
    pub custom_color: Option<[u32; 4]>,
}

impl View for Tab {
    type V = TabView;

    open spec fn view(&self) -> TabView {
        TabView {
            panes: self.panes@,
            current: self.current as int,
            custom_title: self.custom_title,
            custom_color: self.custom_color,
        }
    }
}

/// What every tab keeps: one of its panes has the keyboard.
pub open spec fn tab_wf(tab: TabView) -> bool {
    0 <= tab.current < tab.panes.len()
}

/// The route that a tab shows: that of the pane with the keyboard.
pub open spec fn route_of(tab: TabView) -> usize {
    tab.panes[tab.current].route_id
}

/// A tab with one pane that has no title yet.
pub open spec fn is_single(tab: TabView, route_id: usize, rich_text_id: usize) -> bool {
    &&& tab.panes.len() == 1
    &&& tab.current == 0
    &&& tab.panes[0].route_id == route_id
    &&& tab.panes[0].rich_text_id == rich_text_id
    &&& tab.panes[0].title@ == Seq::<char>::empty()
    &&& tab.custom_title is None
    &&& tab.custom_color is None
}

/// A tab with one pane that has no title yet.
pub fn single_tab(route_id: usize, rich_text_id: usize) -> (tab: Tab)
    ensures
        is_single(tab@, route_id, rich_text_id),
{
    let title = String::new();
    let mut panes: Vec<Pane> = Vec::new();
    panes.push(Pane { route_id, rich_text_id, title });
    Tab { panes, current: 0, custom_title: None, custom_color: None }
}

/// The tabs of a window, the first of them held in place.
#[verifier::external_body]
pub struct TabList {
    inner: SmallVec<[Tab; 28]>,
}

/// The tabs that a list holds, in their order.
pub uninterp spec fn tabs_in(list: TabList) -> Seq<Tab>;

impl View for TabList {
    type V = Seq<Tab>;

    open spec fn view(&self) -> Seq<Tab> {
        tabs_in(*self)
    }
}

/// Whether a tab shows a route. A tab without panes shows none.
fn shows(tab: &Tab, route_id: usize) -> (shown: bool)
    ensures
        tab_wf(tab@) ==> shown == (route_of(tab@) == route_id),
{
    if tab.current < tab.panes.len() {
        tab.panes[tab.current].route_id == route_id
    } else {
        false
    }
}

impl TabList {
    /// `SmallVec::new`: a list of no tabs.
    #[verifier::external_body]
    pub(crate) fn new() -> (list: TabList)
        ensures
            tabs_in(list) == Seq::<Tab>::empty(),
    {
        TabList { inner: SmallVec::new() }
    }

    /// `SmallVec::len`: the number of tabs.
    #[verifier::external_body]
    pub(crate) fn len(&self) -> (n: usize)
        ensures
            n == tabs_in(*self).len(),
    {
        self.inner.len()
    }

    /// `SmallVec::push`: one more tab at the end.
    #[verifier::external_body]
    pub(crate) fn push(&mut self, tab: Tab)
        ensures
            tabs_in(*final(self)) == tabs_in(*old(self)).push(tab),
    {
        self.inner.push(tab)
    }

    /// Indexing of a `SmallVec`: the tab at a place.
    #[verifier::external_body]
    pub(crate) fn at(&self, index: usize) -> (tab: &Tab)
        requires
            index < tabs_in(*self).len(),
        ensures
            *tab == tabs_in(*self)[index as int],
    {
        &self.inner[index]
    }

    /// `SmallVec::remove`: takes a tab out; those behind it move up.
    #[verifier::external_body]
    pub(crate) fn remove(&mut self, index: usize) -> (tab: Tab)
        requires
            index < tabs_in(*old(self)).len(),
        ensures
            tab == tabs_in(*old(self))[index as int],
            tabs_in(*final(self)) == tabs_in(*old(self)).remove(index as int),
    {
        self.inner.remove(index)
    }

    /// `SmallVec::insert`: puts a tab in; those behind it move down.
    #[verifier::external_body]
    pub(crate) fn insert(&mut self, index: usize, tab: Tab)
        requires
            index <= tabs_in(*old(self)).len(),
        ensures
            tabs_in(*final(self)) == tabs_in(*old(self)).insert(index as int, tab),
    {
        self.inner.insert(index, tab)
    }

    /// `swap` of the slice that a `SmallVec` is: two tabs change places.
    #[verifier::external_body]
    pub(crate) fn swap(&mut self, a: usize, b: usize)
        requires
            a < tabs_in(*old(self)).len(),
            b < tabs_in(*old(self)).len(),
        ensures
            tabs_in(*final(self)) == tabs_in(*old(self)).update(
                a as int,
                tabs_in(*old(self))[b as int],
            ).update(b as int, tabs_in(*old(self))[a as int]),
    {
        self.inner.swap(a, b)
    }

    /// `SmallVec::retain`: keeps the tabs that show a route, in their order.
    #[verifier::external_body]
    pub(crate) fn retain_showing(&mut self, route_id: usize)
        requires
            forall|i: int|
                0 <= i < tabs_in(*old(self)).len() ==> tab_wf(
                    (#[trigger] tabs_in(*old(self))[i])@,
                ),
        ensures
            tabs_in(*final(self)) == tabs_in(*old(self)).filter(|t: Tab| route_of(t@) == route_id),
    {
        self.inner.retain(|tab| shows(tab, route_id))
    }
}

/// What a window is to do besides changing its tabs.
#[derive(Clone, Debug)]
pub enum TabEvent {
    SelectNativeTabByIndex(usize),
    SelectNativeTabNext,
    SelectNativeTabPrev,
    SelectNativeTabLast,
    CreateNativeTab(Option<String>),
    CloseWindow,
}

/// The settings that tabs depend on.
#[derive(Clone, Debug)]
pub struct TabConfig {
    /// Whether the windowing system draws the tabs.
    pub is_native: bool,
    /// Whether a new tab starts where the current one is.
    pub cwd: bool,
    pub working_dir: Option<String>,
    /// Whether changes of tabs and splits are saved at once.
    pub autosave: bool,
}

/// The tabs of a window.
pub struct ContextManager {
    contexts: TabList,
    current_index: usize,
    current_route: usize,
    capacity: usize,
    config: TabConfig,
}

/// The mathematical value of a [`ContextManager`].
#[verifier::ext_equal]
pub struct TabsView {
    pub tabs: Seq<TabView>,
    pub index: int,
    pub route: usize,
    pub capacity: int,
    pub config: TabConfig,
}

/// The mathematical values of tabs.
pub open spec fn tab_views(tabs: Seq<Tab>) -> Seq<TabView> {
    Seq::new(tabs.len(), |i: int| tabs[i]@)
}

impl View for ContextManager {
    type V = TabsView;

    closed spec fn view(&self) -> TabsView {
        TabsView {
            tabs: tab_views(self.contexts@),
            index: self.current_index as int,
            route: self.current_route,
            capacity: self.capacity as int,
            config: self.config,
        }
    }
}

/// What every set of tabs keeps: each has a pane with the keyboard.
pub open spec fn tabs_wf(v: TabsView) -> bool {
    forall|i: int| 0 <= i < v.tabs.len() ==> tab_wf(#[trigger] v.tabs[i])
}

/// Whether one of the tabs is shown.
pub open spec fn shows_a_tab(v: TabsView) -> bool {
    0 <= v.index < v.tabs.len()
}

/// The tabs with one of them shown; as they are where there is none such.
pub open spec fn shown(v: TabsView, index: int) -> TabsView {
    if 0 <= index < v.tabs.len() {
        TabsView { index, route: route_of(v.tabs[index]), ..v }
    } else {
        v
    }
}

/// The index of the first tab that shows a route.
pub open spec fn tab_showing(tabs: Seq<TabView>, route_id: usize) -> Option<int>
    decreases tabs.len(),
{
    if tabs.len() == 0 {
        None
    } else if route_of(tabs[0]) == route_id {
        Some(0)
    } else {
        match tab_showing(tabs.skip(1), route_id) {
            Some(i) => Some(i + 1),
            None => None,
        }
    }
}

/// The tabs without one of them. The tab before it is shown, the first where
/// there is none before it but that.
pub open spec fn without_shown(v: TabsView, index: int) -> TabsView {
    if index > 1 {
        TabsView { tabs: v.tabs.remove(index), ..shown(v, index - 1) }
    } else {
        shown(TabsView { tabs: v.tabs.remove(index), ..v }, 0)
    }
}

/// The tabs with the current one changed.
pub open spec fn with_current(v: TabsView, tab: TabView) -> TabsView {
    TabsView { tabs: v.tabs.update(v.index, tab), route: route_of(tab), ..v }
}

/// The index of the tab behind the one that is shown: the first behind the last.
pub open spec fn index_after(v: TabsView) -> int {
    if v.index + 1 == v.tabs.len() {
        0
    } else {
        v.index + 1
    }
}

/// The index of the tab before the one that is shown: the last before the first.
pub open spec fn index_before(v: TabsView) -> int {
    if v.index == 0 {
        v.tabs.len() - 1
    } else {
        v.index - 1
    }
}

/// Whether the next pane is one of the next tab.
pub open spec fn leaves_tab_forward(v: TabsView) -> bool {
    v.tabs[v.index].current + 1 >= v.tabs[v.index].panes.len()
}

/// Whether the pane before is one of the tab before.
pub open spec fn leaves_tab_backward(v: TabsView) -> bool {
    v.tabs[v.index].current == 0
}

/// The tabs with the keyboard at the next pane: behind the last one of a tab at the
/// first one of the next tab. Where the windowing system shows the tabs the pane is
/// chosen in the tab that is shown.
pub open spec fn at_pane_after(v: TabsView) -> TabsView {
    let tab = v.tabs[v.index];
    let next = index_after(v);
    if !leaves_tab_forward(v) {
        with_current(v, TabView { current: tab.current + 1, ..tab })
    } else if v.config.is_native {
        with_current(v, TabView { current: 0, ..tab })
    } else {
        with_current(shown(v, next), TabView { current: 0, ..v.tabs[next] })
    }
}

/// The tabs with the keyboard at the pane before: before the first one of a tab at
/// the last one of the tab before.
pub open spec fn at_pane_before(v: TabsView) -> TabsView {
    let tab = v.tabs[v.index];
    let prev = index_before(v);
    if !leaves_tab_backward(v) {
        with_current(v, TabView { current: tab.current - 1, ..tab })
    } else if v.config.is_native {
        with_current(v, TabView { current: tab.panes.len() - 1, ..tab })
    } else {
        with_current(
            shown(v, prev),
            TabView { current: v.tabs[prev].panes.len() - 1, ..v.tabs[prev] },
        )
    }
}

/// The tabs with the one that is shown moved; as they are where there is no such
/// place or the windowing system orders them.
pub open spec fn moved_to(v: TabsView, target: int) -> TabsView {
    if v.config.is_native || target == v.index || target >= v.tabs.len() {
        v
    } else {
        shown(
            TabsView { tabs: v.tabs.remove(v.index).insert(target, v.tabs[v.index]), ..v },
            target,
        )
    }
}

/// The tabs that show what the current one does.
pub open spec fn with_focused_only(v: TabsView) -> TabsView {
    let route_id = route_of(v.tabs[v.index]);
    shown(TabsView { tabs: v.tabs.filter(|t: TabView| route_of(t) == route_id), ..v }, 0)
}

/// A tab without its current pane; `next` is the place of the pane that gets the
/// keyboard among those left.
pub open spec fn without_pane(tab: TabView, next: int) -> TabView {
    TabView { panes: tab.panes.remove(tab.current), current: next, ..tab }
}

/// What a shell that ended leaves. In a tab with several panes only the current
/// one is taken out; a tab with one pane goes with its shell.
pub open spec fn without_route(v: TabsView, route_id: usize, next: int) -> TabsView {
    let tab = v.tabs[v.index];
    if tab.panes.len() > 1 {
        if route_of(tab) == route_id {
            with_current(v, without_pane(tab, next))
        } else {
            v
        }
    } else {
        match tab_showing(v.tabs, route_id) {
            Some(i) => if v.route == route_id {
                without_shown(v, i)
            } else {
                TabsView { tabs: v.tabs.remove(i), ..v }
            },
            None => v,
        }
    }
}

proof fn lemma_tab_showing(tabs: Seq<TabView>, route_id: usize, i: int)
    requires
        0 <= i <= tabs.len(),
        forall|j: int| 0 <= j < i ==> route_of(#[trigger] tabs[j]) != route_id,
    ensures
        i < tabs.len() && route_of(tabs[i]) == route_id ==> tab_showing(tabs, route_id) == Some(i),
        i == tabs.len() ==> tab_showing(tabs, route_id) is None,
    decreases i,
{
    if i > 0 {
        let rest = tabs.skip(1);
        assert forall|j: int| 0 <= j < i - 1 implies route_of(#[trigger] rest[j]) != route_id by {
            assert(rest[j] == tabs[j + 1]);
        }
        lemma_tab_showing(rest, route_id, i - 1);
        assert(route_of(tabs[0]) != route_id);
    }
}

impl ContextManager {
    /// What every manager keeps: each tab has a pane with the keyboard.
    pub open spec fn wf(&self) -> bool {
        tabs_wf(self@)
    }

    /// The tabs of a new window: one, with one pane. No route counts as the
    /// current one yet.
    pub fn start(capacity: usize, config: TabConfig, route_id: usize, rich_text_id: usize) -> (cm:
        ContextManager)
        ensures
            cm.wf(),
            cm@.tabs.len() == 1,
            is_single(cm@.tabs[0], route_id, rich_text_id),
            cm@.index == 0,
            cm@.route == 0,
            cm@.capacity == capacity,
            cm@.config == config,
    {
        let mut contexts = TabList::new();
        contexts.push(single_tab(route_id, rich_text_id));
        ContextManager { contexts, current_index: 0, current_route: 0, capacity, config }
    }

    pub fn len(&self) -> (n: usize)
        ensures
            n == self@.tabs.len(),
    {
        self.contexts.len()
    }

    pub fn capacity(&self) -> (n: usize)
        ensures
            n == self@.capacity,
    {
        self.capacity
    }

    /// Makes room for more tabs.
    pub fn increase_capacity(&mut self, more: usize)
        requires
            old(self)@.capacity + more <= usize::MAX,
        ensures
            final(self)@ == (TabsView { capacity: old(self)@.capacity + more, ..old(self)@ }),
    {
        self.capacity = self.capacity + more;
    }

    pub fn current_index(&self) -> (index: usize)
        ensures
            index == self@.index,
    {
        self.current_index
    }

    pub fn current_route(&self) -> (route_id: usize)
        ensures
            route_id == self@.route,
    {
        self.current_route
    }

    /// The tab that is shown.
    pub fn current_grid(&self) -> (tab: &Tab)
        requires
            shows_a_tab(self@),
        ensures
            tab@ == self@.tabs[self@.index],
    {
        self.contexts.at(self.current_index)
    }

    /// The pane that has the keyboard.
    pub fn current(&self) -> (pane: &Pane)
        requires
            self.wf(),
            shows_a_tab(self@),
        ensures
            *pane == self@.tabs[self@.index].panes[self@.tabs[self@.index].current],
    {
        let tab = self.contexts.at(self.current_index);
        assert(tab@ == self@.tabs[self@.index]);
        &tab.panes[tab.current]
    }

    /// The tab at a place.
    pub fn tab(&self, index: usize) -> (tab: Option<&Tab>)
        ensures
            match tab {
                Some(t) => index < self@.tabs.len() && t@ == self@.tabs[index as int],
                None => index >= self@.tabs.len(),
            },
    {
        if index < self.contexts.len() {
            Some(self.contexts.at(index))
        } else {
            None
        }
    }

    /// The title of a tab: that of its pane with the keyboard.
    pub fn title(&self, index: usize) -> (title: Option<&String>)
        requires
            self.wf(),
        ensures
            match title {
                Some(t) => index < self@.tabs.len() && *t
                    == self@.tabs[index as int].panes[self@.tabs[index as int].current].title,
                None => index >= self@.tabs.len(),
            },
    {
        if index < self.contexts.len() {
            let tab = self.contexts.at(index);
            assert(tab@ == self@.tabs[index as int]);
            Some(&tab.panes[tab.current].title)
        } else {
            None
        }
    }

    pub fn custom_title(&self, index: usize) -> (title: Option<&String>)
        ensures
            match title {
                Some(t) => index < self@.tabs.len() && self@.tabs[index as int].custom_title == Some(
                    *t,
                ),
                None => index >= self@.tabs.len() || self@.tabs[index as int].custom_title is None,
            },
    {
        if index < self.contexts.len() {
            let tab = self.contexts.at(index);
            assert(tab@ == self@.tabs[index as int]);
            match &tab.custom_title {
                Some(title) => Some(title),
                None => None,
            }
        } else {
            None
        }
    }

    pub fn custom_color(&self, index: usize) -> (color: Option<[u32; 4]>)
        ensures
            color == if index < self@.tabs.len() {
                self@.tabs[index as int].custom_color
            } else {
                None
            },
    {
        if index < self.contexts.len() {
            let tab = self.contexts.at(index);
            assert(tab@ == self@.tabs[index as int]);
            tab.custom_color
        } else {
            None
        }
    }

    /// Puts another tab in the place of one.
    fn put(&mut self, index: usize, tab: Tab)
        requires
            index < old(self)@.tabs.len(),
        ensures
            final(self)@ == (TabsView {
                tabs: old(self)@.tabs.update(index as int, tab@),
                ..old(self)@
            }),
    {
        let _ = self.contexts.remove(index);
        self.contexts.insert(index, tab);
        assert(self@.tabs =~= old(self)@.tabs.update(index as int, tab@));
    }

    /// Takes a tab out.
    fn take(&mut self, index: usize) -> (tab: Tab)
        requires
            index < old(self)@.tabs.len(),
        ensures
            tab@ == old(self)@.tabs[index as int],
            final(self)@ == (TabsView { tabs: old(self)@.tabs.remove(index as int), ..old(self)@ }),
    {
        let tab = self.contexts.remove(index);
        assert(self@.tabs =~= old(self)@.tabs.remove(index as int));
        tab
    }

    /// Sets the title of a tab's pane with the keyboard.
    pub fn set_title(&mut self, index: usize, title: String)
        requires
            old(self).wf(),
        ensures
            final(self).wf(),
            final(self)@ == if index < old(self)@.tabs.len() {
                let tab = old(self)@.tabs[index as int];
                TabsView {
                    tabs: old(self)@.tabs.update(
                        index as int,
                        TabView {
                            panes: tab.panes.update(
                                tab.current,
                                Pane { title, ..tab.panes[tab.current] },
                            ),
                            ..tab
                        },
                    ),
                    ..old(self)@
                }
            } else {
                old(self)@
            },
    {
        if index < self.contexts.len() {
            let ghost before = self@.tabs[index as int];
            assert(tab_wf(before));
            let mut tab = self.contexts.remove(index);
            assert(tab@ == before);
            let at: usize = tab.current;
            let old_pane = tab.panes.remove(at);
            let pane = Pane {
                route_id: old_pane.route_id,
                rich_text_id: old_pane.rich_text_id,
                title,
            };
            tab.panes.insert(at, pane);
            assert(tab@.panes =~= before.panes.update(before.current, pane));
            self.contexts.insert(index, tab);
            assert(self@.tabs =~= old(self)@.tabs.update(index as int, tab@));
        }
    }

    pub fn set_custom_title(&mut self, index: usize, title: Option<String>)
        requires
            old(self).wf(),
        ensures
            final(self).wf(),
            final(self)@ == if index < old(self)@.tabs.len() {
                TabsView {
                    tabs: old(self)@.tabs.update(
                        index as int,
                        TabView { custom_title: title, ..old(self)@.tabs[index as int] },
                    ),
                    ..old(self)@
                }
            } else {
                old(self)@
            },
    {
        if index < self.contexts.len() {
            assert(tab_wf(self@.tabs[index as int]));
            let mut tab = self.contexts.remove(index);
            tab.custom_title = title;
            self.contexts.insert(index, tab);
            assert(self@.tabs =~= old(self)@.tabs.update(index as int, tab@));
        }
    }

    pub fn set_custom_color(&mut self, index: usize, color: Option<[u32; 4]>)
        requires
            old(self).wf(),
        ensures
            final(self).wf(),
            final(self)@ == if index < old(self)@.tabs.len() {
                TabsView {
                    tabs: old(self)@.tabs.update(
                        index as int,
                        TabView { custom_color: color, ..old(self)@.tabs[index as int] },
                    ),
                    ..old(self)@
                }
            } else {
                old(self)@
            },
    {
        if index < self.contexts.len() {
            assert(tab_wf(self@.tabs[index as int]));
            let mut tab = self.contexts.remove(index);
            tab.custom_color = color;
            self.contexts.insert(index, tab);
            assert(self@.tabs =~= old(self)@.tabs.update(index as int, tab@));
        }
    }

    /// Shows a tab; nothing happens where there is none such.
    pub fn set_current(&mut self, context_id: usize)
        requires
            old(self).wf(),
        ensures
            final(self).wf(),
            final(self)@ == shown(old(self)@, context_id as int),
    {
        if context_id < self.contexts.len() {
            self.current_index = context_id;
            let tab = self.contexts.at(context_id);
            assert(tab@ == self@.tabs[context_id as int]);
            assert(tab_wf(tab@));
            self.current_route = tab.panes[tab.current].route_id;
        }
    }

    /// Shows a tab by its index, or has the windowing system do it.
    pub fn select_tab(&mut self, index: usize) -> (event: Option<TabEvent>)
        requires
            old(self).wf(),
        ensures
            final(self).wf(),
            old(self)@.config.is_native ==> event == Some(TabEvent::SelectNativeTabByIndex(index))
                && final(self)@ == old(self)@,
            !old(self)@.config.is_native ==> event is None && final(self)@ == shown(
                old(self)@,
                index as int,
            ),
    {
        if self.config.is_native {
            return Some(TabEvent::SelectNativeTabByIndex(index));
        }
        self.set_current(index);
        None
    }

    /// Shows the last tab, or has the windowing system do it.
    pub fn select_last_tab(&mut self) -> (event: Option<TabEvent>)
        requires
            old(self).wf(),
            old(self)@.tabs.len() > 0,
        ensures
            final(self).wf(),
            old(self)@.config.is_native ==> event == Some(TabEvent::SelectNativeTabLast) && final(self)@ == old(self)@,
            !old(self)@.config.is_native ==> event is None && final(self)@ == shown(
                old(self)@,
                old(self)@.tabs.len() - 1,
            ),
    {
        if self.config.is_native {
            return Some(TabEvent::SelectNativeTabLast);
        }
        self.set_current(self.contexts.len() - 1);
        None
    }

    /// Shows the next tab, the first behind the last.
    pub fn switch_to_next(&mut self) -> (event: Option<TabEvent>)
        requires
            old(self).wf(),
            shows_a_tab(old(self)@),
        ensures
            final(self).wf(),
            old(self)@.config.is_native ==> event == Some(TabEvent::SelectNativeTabNext) && final(self)@ == old(self)@,
            !old(self)@.config.is_native ==> event is None && final(self)@ == shown(
                old(self)@,
                index_after(old(self)@),
            ),
    {
        if self.config.is_native {
            return Some(TabEvent::SelectNativeTabNext);
        }
        let next: usize = if self.contexts.len() - 1 == self.current_index {
            0
        } else {
            self.current_index + 1
        };
        self.set_current(next);
        None
    }

    /// Shows the previous tab, the last before the first.
    pub fn switch_to_prev(&mut self) -> (event: Option<TabEvent>)
        requires
            old(self).wf(),
            shows_a_tab(old(self)@),
        ensures
            final(self).wf(),
            old(self)@.config.is_native ==> event == Some(TabEvent::SelectNativeTabPrev) && final(self)@ == old(self)@,
            !old(self)@.config.is_native ==> event is None && final(self)@ == shown(
                old(self)@,
                index_before(old(self)@),
            ),
    {
        if self.config.is_native {
            return Some(TabEvent::SelectNativeTabPrev);
        }
        let prev: usize = if self.current_index == 0 {
            self.contexts.len() - 1
        } else {
            self.current_index - 1
        };
        self.set_current(prev);
        None
    }

    /// Gives the keyboard to a pane of the current tab.
    fn select_pane(&mut self, pane: usize)
        requires
            old(self).wf(),
            shows_a_tab(old(self)@),
            pane < old(self)@.tabs[old(self)@.index].panes.len(),
        ensures
            final(self).wf(),
            final(self)@ == with_current(
                old(self)@,
                TabView { current: pane as int, ..old(self)@.tabs[old(self)@.index] },
            ),
    {
        let at: usize = self.current_index;
        let ghost before = self@.tabs[at as int];
        let mut tab = self.contexts.remove(at);
        tab.current = pane;
        self.current_route = tab.panes[pane].route_id;
        self.contexts.insert(at, tab);
        assert(self@.tabs =~= old(self)@.tabs.update(at as int, tab@));
    }

    /// Gives the keyboard to the pane at a place of the current tab; nothing
    /// happens where there is none such.
    pub fn select_pane_by_order(&mut self, pane: usize)
        requires
            old(self).wf(),
            shows_a_tab(old(self)@),
        ensures
            final(self).wf(),
            final(self)@ == if pane < old(self)@.tabs[old(self)@.index].panes.len() {
                with_current(
                    old(self)@,
                    TabView { current: pane as int, ..old(self)@.tabs[old(self)@.index] },
                )
            } else {
                old(self)@
            },
    {
        let tab = self.contexts.at(self.current_index);
        assert(tab@ == self@.tabs[self@.index]);
        if pane < tab.panes.len() {
            self.select_pane(pane);
        }
    }

    /// Gives the keyboard to the next pane, behind the last one to the first
    /// pane of the next tab.
    pub fn switch_to_next_split_or_tab(&mut self) -> (event: Option<TabEvent>)
        requires
            old(self).wf(),
            shows_a_tab(old(self)@),
        ensures
            final(self).wf(),
            final(self)@ == at_pane_after(old(self)@),
            event == if old(self)@.config.is_native && leaves_tab_forward(old(self)@) {
                Some(TabEvent::SelectNativeTabNext)
            } else {
                None
            },
    {
        let tab = self.contexts.at(self.current_index);
        assert(tab@ == self@.tabs[self@.index]);
        assert(tab_wf(tab@));
        assert(tab.panes.len() == tab.panes@.len());
        if tab.current + 1 < tab.panes.len() {
            let next: usize = tab.current + 1;
            self.select_pane(next);
            return None;
        }
        let event = self.switch_to_next();
        assert(tab_wf(self@.tabs[self@.index]));
        self.select_pane(0);
        event
    }

    /// Gives the keyboard to the previous pane, before the first one to the last
    /// pane of the previous tab.
    pub fn switch_to_prev_split_or_tab(&mut self) -> (event: Option<TabEvent>)
        requires
            old(self).wf(),
            shows_a_tab(old(self)@),
        ensures
            final(self).wf(),
            final(self)@ == at_pane_before(old(self)@),
            event == if old(self)@.config.is_native && leaves_tab_backward(old(self)@) {
                Some(TabEvent::SelectNativeTabPrev)
            } else {
                None
            },
    {
        let tab = self.contexts.at(self.current_index);
        assert(tab@ == self@.tabs[self@.index]);
        assert(tab_wf(tab@));
        if tab.current > 0 {
            let prev: usize = tab.current - 1;
            self.select_pane(prev);
            return None;
        }
        let event = self.switch_to_prev();
        assert(tab_wf(self@.tabs[self@.index]));
        let tab = self.contexts.at(self.current_index);
        assert(tab@ == self@.tabs[self@.index]);
        let last: usize = tab.panes.len() - 1;
        self.select_pane(last);
        event
    }

    /// Moves the current tab one place down, from the first to the last.
    pub fn move_current_to_prev(&mut self) -> (event: Option<TabEvent>)
        requires
            old(self).wf(),
            shows_a_tab(old(self)@),
        ensures
            final(self).wf(),
            old(self)@.tabs.len() <= 1 ==> event is None && final(self)@ == old(self)@,
            old(self)@.tabs.len() > 1 ==> moved_by_swap(
                *old(self),
                *final(self),
                event,
                index_before(old(self)@),
            ),
    {
        let len: usize = self.contexts.len();
        if len <= 1 {
            return None;
        }
        let current: usize = self.current_index;
        let target: usize = if current == 0 {
            len - 1
        } else {
            current - 1
        };
        self.contexts.swap(current, target);
        assert(self@.tabs =~= swapped(old(self)@.tabs, current as int, target as int));
        self.select_tab(target)
    }

    /// Moves the current tab one place up, from the last to the first.
    pub fn move_current_to_next(&mut self) -> (event: Option<TabEvent>)
        requires
            old(self).wf(),
            shows_a_tab(old(self)@),
        ensures
            final(self).wf(),
            old(self)@.tabs.len() <= 1 ==> event is None && final(self)@ == old(self)@,
            old(self)@.tabs.len() > 1 ==> moved_by_swap(
                *old(self),
                *final(self),
                event,
                index_after(old(self)@),
            ),
    {
        let len: usize = self.contexts.len();
        if len <= 1 {
            return None;
        }
        let current: usize = self.current_index;
        let target: usize = if current == len - 1 {
            0
        } else {
            current + 1
        };
        self.contexts.swap(current, target);
        assert(self@.tabs =~= swapped(old(self)@.tabs, current as int, target as int));
        self.select_tab(target)
    }

    /// Moves the current tab to a place; those in between close up.
    pub fn move_current_tab_to(&mut self, target: usize)
        requires
            old(self).wf(),
            shows_a_tab(old(self)@),
        ensures
            final(self).wf(),
            final(self)@ == moved_to(old(self)@, target as int),
    {
        if self.config.is_native {
            return ;
        }
        let current: usize = self.current_index;
        if target == current || target >= self.contexts.len() {
            return ;
        }
        let ghost v = self@;
        let tab = self.contexts.remove(current);
        self.contexts.insert(target, tab);
        proof {
            assert(self@.tabs =~= v.tabs.remove(v.index).insert(target as int, v.tabs[v.index]));
            assert forall|i: int| 0 <= i < self@.tabs.len() implies tab_wf(
                #[trigger] self@.tabs[i],
            ) by {
                let without = v.tabs.remove(v.index);
                if i < target {
                    assert(self@.tabs[i] == without[i]);
                } else if i > target {
                    assert(self@.tabs[i] == without[i - 1]);
                }
            }
        }
        self.set_current(target);
    }

    /// Where a new tab or split starts: where the current one is, where that is
    /// wanted and known, else where the settings say.
    pub fn new_working_dir(&self, foreground: Option<String>) -> (dir: Option<String>)
        ensures
            crate::pane::opt_text(dir) == crate::pane::opt_text(
                if self@.config.cwd && foreground is Some {
                    foreground
                } else {
                    self@.config.working_dir
                },
            ),
    {
        if self.config.cwd && foreground.is_some() {
            foreground
        } else {
            match &self.config.working_dir {
                Some(dir) => Some(dir.clone()),
                None => None,
            }
        }
    }

    /// Whether there is room for one more tab.
    pub fn has_room(&self) -> (room: bool)
        ensures
            room == (self@.tabs.len() < self@.capacity),
    {
        self.contexts.len() < self.capacity
    }

    /// Adds a tab for a pane that was created, if one was and there is room, and
    /// shows it where asked. Where the windowing system draws the tabs it is
    /// asked for one instead.
    pub fn add_context(
        &mut self,
        redirect: bool,
        rich_text_id: usize,
        working_dir: Option<String>,
        created: Option<usize>,
    ) -> (event: Option<TabEvent>)
        requires
            old(self).wf(),
        ensures
            final(self).wf(),
            old(self)@.config.is_native ==> event == Some(TabEvent::CreateNativeTab(working_dir))
                && final(self)@ == old(self)@,
            !old(self)@.config.is_native ==> event is None,
            !old(self)@.config.is_native && (created is None || old(self)@.tabs.len()
                >= old(self)@.capacity) ==> final(self)@ == old(self)@,
            !old(self)@.config.is_native && created is Some && old(self)@.tabs.len()
                < old(self)@.capacity ==> is_added(
                old(self)@,
                final(self)@,
                created->0,
                rich_text_id,
                redirect,
            ),
    {
        if self.config.is_native {
            return Some(TabEvent::CreateNativeTab(working_dir));
        }
        if self.contexts.len() < self.capacity {
            if let Some(route_id) = created {
                self.push_tab(route_id, rich_text_id, redirect);
            }
        }
        None
    }

    fn push_tab(&mut self, route_id: usize, rich_text_id: usize, show: bool)
        requires
            old(self).wf(),
            old(self)@.tabs.len() < old(self)@.capacity,
        ensures
            final(self).wf(),
            is_added(old(self)@, final(self)@, route_id, rich_text_id, show),
    {
        let last: usize = self.contexts.len();
        let tab = single_tab(route_id, rich_text_id);
        self.contexts.push(tab);
        assert(self@.tabs =~= old(self)@.tabs.push(tab@));
        if show {
            self.current_index = last;
            self.current_route = route_id;
        }
        assert(self@.tabs.drop_last() =~= old(self)@.tabs);
    }

    /// Adds a tab for a pane that was asked for by name, and shows it. Where
    /// there is no room, or the pane could not be attached to, that is said.
    pub fn add_context_attach(&mut self, rich_text_id: usize, attached: Result<usize, String>) -> (
    result: Result<(), String>)
        requires
            old(self).wf(),
        ensures
            final(self).wf(),
            match result {
                Ok(_) => old(self)@.tabs.len() < old(self)@.capacity && attached is Ok && is_added(
                    old(self)@,
                    final(self)@,
                    attached->Ok_0,
                    rich_text_id,
                    true,
                ),
                Err(e) => final(self)@ == old(self)@ && if old(self)@.tabs.len()
                    >= old(self)@.capacity {
                    e@ == "tab limit reached"@
                } else {
                    attached == Err::<usize, String>(e)
                },
            },
    {
        if self.contexts.len() >= self.capacity {
            return Err("tab limit reached".to_owned());
        }
        match attached {
            Ok(route_id) => {
                self.push_tab(route_id, rich_text_id, true);
                Ok(())
            },
            Err(e) => Err(e),
        }
    }

    /// Adds a tab that is restored, and shows it. Tells whether it did.
    pub fn add_context_with_dir(&mut self, rich_text_id: usize, created: Option<usize>) -> (added:
        bool)
        requires
            old(self).wf(),
        ensures
            final(self).wf(),
            added == (old(self)@.tabs.len() < old(self)@.capacity && created is Some),
            added ==> is_added(old(self)@, final(self)@, created->0, rich_text_id, true),
            !added ==> final(self)@ == old(self)@,
    {
        if self.contexts.len() >= self.capacity {
            return false;
        }
        match created {
            Some(route_id) => {
                self.push_tab(route_id, rich_text_id, true);
                true
            },
            None => false,
        }
    }

    /// Splits the current pane: the new one stands at `place` among the panes of
    /// the tab and gets the keyboard. Nothing happens where none was created.
    pub fn split(&mut self, rich_text_id: usize, place: usize, created: Option<usize>) -> (done:
        bool)
        requires
            old(self).wf(),
            shows_a_tab(old(self)@),
            place <= old(self)@.tabs[old(self)@.index].panes.len(),
        ensures
            final(self).wf(),
            done == created is Some,
            !done ==> final(self)@ == old(self)@,
            done ==> is_split(old(self)@, final(self)@, created->0, rich_text_id, place as int),
    {
        match created {
            Some(route_id) => {
                let at: usize = self.current_index;
                let ghost before = self@.tabs[at as int];
                let mut tab = self.contexts.remove(at);
                let title = String::new();
                let pane = Pane { route_id, rich_text_id, title };
                tab.panes.insert(place, pane);
                tab.current = place;
                self.contexts.insert(at, tab);
                self.current_route = route_id;
                proof {
                    assert(tab@.panes =~= before.panes.insert(place as int, pane));
                    assert(tab@.panes.remove(place as int) =~= before.panes);
                    assert(self@.tabs =~= old(self)@.tabs.update(at as int, tab@));
                }
                true
            },
            None => false,
        }
    }

    /// Closes the current tab, or has the window closed with its last one.
    pub fn close_current_context(&mut self) -> (event: Option<TabEvent>)
        requires
            old(self).wf(),
            shows_a_tab(old(self)@),
        ensures
            final(self).wf(),
            old(self)@.tabs.len() == 1 ==> event == Some(TabEvent::CloseWindow) && final(self)@
                == old(self)@,
            old(self)@.tabs.len() > 1 ==> event is None && final(self)@ == without_shown(
                old(self)@,
                old(self)@.index,
            ) && shows_a_tab(final(self)@),
    {
        if self.contexts.len() == 1 {
            return Some(TabEvent::CloseWindow);
        }
        let index: usize = self.current_index;
        self.remove_shown(index);
        None
    }

    fn remove_shown(&mut self, index: usize)
        requires
            old(self).wf(),
            index < old(self)@.tabs.len(),
        ensures
            final(self).wf(),
            final(self)@ == without_shown(old(self)@, index as int),
    {
        if index > 1 {
            self.set_current(index - 1);
            let _ = self.take(index);
        } else {
            let _ = self.take(index);
            self.set_current(0);
        }
    }

    /// Cleans up behind a shell that ended, and tells whether the window has no
    /// tab left. `next` is the place of the pane that gets the keyboard, should
    /// the current one go.
    pub fn should_close_context_manager(&mut self, route_id: usize, next: usize) -> (close: bool)
        requires
            old(self).wf(),
            old(self)@.tabs.len() > 0 ==> shows_a_tab(old(self)@),
            old(self)@.tabs.len() > 0 && old(self)@.tabs[old(self)@.index].panes.len() > 1 ==> next
                + 1 < old(self)@.tabs[old(self)@.index].panes.len(),
        ensures
            final(self).wf(),
            final(self)@ == if old(self)@.tabs.len() == 0 {
                old(self)@
            } else {
                without_route(old(self)@, route_id, next as int)
            },
            close == (final(self)@.tabs.len() == 0),
    {
        if self.contexts.len() == 0 {
            return true;
        }
        let ghost v = self@;
        let tab = self.contexts.at(self.current_index);
        assert(tab@ == v.tabs[v.index]);
        assert(tab_wf(tab@));
        if tab.panes.len() > 1 {
            if tab.panes[tab.current].route_id == route_id {
                let at: usize = self.current_index;
                let mut tab = self.contexts.remove(at);
                let pane: usize = tab.current;
                let _ = tab.panes.remove(pane);
                tab.current = next;
                self.current_route = tab.panes[next].route_id;
                self.contexts.insert(at, tab);
                proof {
                    assert(tab@.panes =~= v.tabs[v.index].panes.remove(v.tabs[v.index].current));
                    assert(self@.tabs =~= v.tabs.update(v.index, tab@));
                }
            }
            return false;
        }
        let mut i: usize = 0;
        while i < self.contexts.len()
            invariant
                i <= self@.tabs.len(),
                self.wf(),
                self@ == v,
                forall|j: int| 0 <= j < i ==> route_of(#[trigger] v.tabs[j]) != route_id,
                v == old(self)@,
                v.tabs.len() > 0,
                v.tabs[v.index].panes.len() <= 1,
            decreases self@.tabs.len() - i,
        {
            let tab = self.contexts.at(i);
            assert(tab@ == v.tabs[i as int]);
            assert(tab_wf(tab@));
            if tab.panes[tab.current].route_id == route_id {
                proof {
                    lemma_tab_showing(v.tabs, route_id, i as int);
                }
                if self.current_route == route_id {
                    self.remove_shown(i);
                } else {
                    let _ = self.take(i);
                }
                return self.contexts.len() == 0;
            }
            i = i + 1;
        }
        proof {
            lemma_tab_showing(v.tabs, route_id, i as int);
        }
        self.contexts.len() == 0
    }

    /// Closes every tab that does not show the current route.
    pub fn close_unfocused_tabs(&mut self)
        requires
            old(self).wf(),
            shows_a_tab(old(self)@),
        ensures
            final(self).wf(),
            final(self)@ == with_focused_only(old(self)@),
    {
        let ghost v = self@;
        let ghost held = self.contexts@;
        let tab = self.contexts.at(self.current_index);
        assert(tab@ == v.tabs[v.index]);
        assert(tab_wf(tab@));
        let route_id: usize = tab.panes[tab.current].route_id;
        assert forall|i: int| 0 <= i < held.len() implies tab_wf((#[trigger] held[i])@) by {
            assert(held[i]@ == v.tabs[i]);
        }
        self.contexts.retain_showing(route_id);
        proof {
            lemma_filtered_views(held, route_id);
            lemma_filter_keeps_wf(v, route_id);
        }
        self.set_current(0);
    }
}

proof fn lemma_filtered_views(tabs: Seq<Tab>, route_id: usize)
    ensures
        tab_views(tabs.filter(|t: Tab| route_of(t@) == route_id)) == tab_views(tabs).filter(
            |t: TabView| route_of(t) == route_id,
        ),
    decreases tabs.len(),
{
    reveal(Seq::filter);
    let views = tab_views(tabs);
    if tabs.len() == 0 {
        assert(tab_views(tabs.filter(|t: Tab| route_of(t@) == route_id)) =~= views.filter(
            |t: TabView| route_of(t) == route_id,
        ));
    } else {
        lemma_filtered_views(tabs.drop_last(), route_id);
        assert(tab_views(tabs.drop_last()) =~= views.drop_last());
        assert(views.last() == tabs.last()@);
        let kept = tabs.drop_last().filter(|t: Tab| route_of(t@) == route_id);
        if route_of(tabs.last()@) == route_id {
            assert(tab_views(kept.push(tabs.last())) =~= tab_views(kept).push(tabs.last()@));
        }
    }
}

proof fn lemma_filter_keeps_wf(v: TabsView, route_id: usize)
    requires
        tabs_wf(v),
    ensures
        tabs_wf(TabsView { tabs: v.tabs.filter(|t: TabView| route_of(t) == route_id), ..v }),
    decreases v.tabs.len(),
{
    reveal(Seq::filter);
    if v.tabs.len() > 0 {
        let less = TabsView { tabs: v.tabs.drop_last(), ..v };
        assert forall|i: int| 0 <= i < less.tabs.len() implies tab_wf(#[trigger] less.tabs[i]) by {
            assert(less.tabs[i] == v.tabs[i]);
        }
        lemma_filter_keeps_wf(less, route_id);
        assert(tab_wf(v.tabs.last()));
        let kept = TabsView {
            tabs: less.tabs.filter(|t: TabView| route_of(t) == route_id),
            ..less
        };
        let all = v.tabs.filter(|t: TabView| route_of(t) == route_id);
        assert forall|i: int| 0 <= i < all.len() implies tab_wf(#[trigger] all[i]) by {
            if i < kept.tabs.len() {
                assert(all[i] == kept.tabs[i]);
                assert(tab_wf(kept.tabs[i]));
            }
        }
    }
}

/// Two tabs with their places changed.
pub open spec fn swapped(tabs: Seq<TabView>, a: int, b: int) -> Seq<TabView> {
    tabs.update(a, tabs[b]).update(b, tabs[a])
}

/// What moving the current tab by a swap does.
pub open spec fn moved_by_swap(
    before: ContextManager,
    after: ContextManager,
    event: Option<TabEvent>,
    target: int,
) -> bool {
    let v = before@;
    let moved = TabsView { tabs: swapped(v.tabs, v.index, target), ..v };
    if v.config.is_native {
        event == Some(TabEvent::SelectNativeTabByIndex(target as usize)) && after@ == moved
    } else {
        event is None && after@ == shown(moved, target)
    }
}

/// What adding a tab does.
pub open spec fn is_added(
    before: TabsView,
    after: TabsView,
    route_id: usize,
    rich_text_id: usize,
    show: bool,
) -> bool {
    &&& after.tabs.len() == before.tabs.len() + 1
    &&& after.tabs.drop_last() == before.tabs
    &&& is_single(after.tabs.last(), route_id, rich_text_id)
    &&& after.capacity == before.capacity
    &&& after.config == before.config
    &&& after.index == if show {
        before.tabs.len() as int
    } else {
        before.index
    }
    &&& after.route == if show {
        route_id
    } else {
        before.route
    }
}

/// What splitting the current pane does.
pub open spec fn is_split(
    before: TabsView,
    after: TabsView,
    route_id: usize,
    rich_text_id: usize,
    place: int,
) -> bool {
    let old_tab = before.tabs[before.index];
    let tab = after.tabs[before.index];
    &&& after == (TabsView {
        tabs: before.tabs.update(before.index, tab),
        route: route_id,
        ..before
    })
    &&& tab.panes.len() == old_tab.panes.len() + 1
    &&& tab.panes.remove(place) == old_tab.panes
    &&& tab.panes[place].route_id == route_id
    &&& tab.panes[place].rich_text_id == rich_text_id
    &&& tab.current == place
    &&& tab.custom_title == old_tab.custom_title
    &&& tab.custom_color == old_tab.custom_color
}

/// Whether titles are to be made anew: never done, or long enough ago.
pub fn title_update_due(since_last: Option<u64>) -> (due: bool)
    ensures
        due == match since_last {
            None => true,
            Some(millis) => millis > TITLE_INTERVAL_MILLIS,
        },
{
    match since_last {
        None => true,
        Some(millis) => millis > TITLE_INTERVAL_MILLIS,
    }
}

/// Which tabs are drawn: the current one and no other.
pub open spec fn visibility(v: TabsView) -> Seq<bool> {
    Seq::new(v.tabs.len(), |i: int| i == v.index)
}

impl ContextManager {
    /// Which tabs are drawn: the current one and no other.
    pub fn keep_only_active_context_visible(&self) -> (visible: Vec<bool>)
        ensures
            visible@ == visibility(self@),
    {
        let mut visible: Vec<bool> = Vec::new();
        let n: usize = self.contexts.len();
        let mut i: usize = 0;
        while i < n
            invariant
                i <= n,
                n == self@.tabs.len(),
                visible@ == visibility(self@).take(i as int),
            decreases n - i,
        {
            visible.push(i == self.current_index);
            i = i + 1;
            assert(visible@ =~= visibility(self@).take(i as int));
        }
        assert(visible@ =~= visibility(self@));
        visible
    }

    /// Whether a change of tabs or splits is saved at once.
    pub fn autosave_on_change(&self) -> (save: bool)
        ensures
            save == self@.config.autosave,
    {
        self.config.autosave
    }
}

/// A tab keeps what it was given wherever it is moved: moving the current tab
/// changes only the order, brings it to its place, shows it there and leaves the
/// others in their order.
pub proof fn law_moving_a_tab_changes_only_the_order(v: TabsView, target: int)
    requires
        shows_a_tab(v),
        !v.config.is_native,
        v.route == route_of(v.tabs[v.index]),
        0 <= target < v.tabs.len(),
    ensures
        ({
            let after = moved_to(v, target);
            &&& after.tabs.to_multiset() == v.tabs.to_multiset()
            &&& after.tabs[target] == v.tabs[v.index]
            &&& after.index == target
            &&& after.route == v.route
            &&& after.tabs.remove(target) == v.tabs.remove(v.index)
        }),
{
    let tab = v.tabs[v.index];
    let without = v.tabs.remove(v.index);
    v.tabs.to_multiset_ensures();
    without.to_multiset_ensures();
    let made = without.insert(target, tab);
    assert(made.remove(target) =~= without);
    made.to_multiset_ensures();
    assert(v.tabs.contains(tab));
    assert(made.contains(tab)) by {
        assert(made[target] == tab);
    }
    assert(v.tabs.to_multiset() =~= without.to_multiset().insert(tab));
    assert(made.to_multiset() =~= without.to_multiset().insert(tab));
    if target == v.index {
        assert(made =~= v.tabs);
    }
}

/// When the shell of the tab that is shown ends and other tabs are left, one of
/// them is shown.
pub proof fn law_a_tab_is_shown_after_a_shell_ended(v: TabsView, route_id: usize, next: int)
    requires
        tabs_wf(v),
        shows_a_tab(v),
        v.tabs.len() > 1,
        v.route == route_id,
        route_of(v.tabs[v.index]) == route_id,
    ensures
        shows_a_tab(without_route(v, route_id, next)),
{
    lemma_tab_showing_bound(v.tabs, route_id, v.index);
}

proof fn lemma_tab_showing_bound(tabs: Seq<TabView>, route_id: usize, at: int)
    requires
        0 <= at < tabs.len(),
        route_of(tabs[at]) == route_id,
    ensures
        tab_showing(tabs, route_id) matches Some(i) && 0 <= i <= at,
    decreases tabs.len(),
{
    if route_of(tabs[0]) != route_id {
        assert(tabs.skip(1)[at - 1] == tabs[at]);
        lemma_tab_showing_bound(tabs.skip(1), route_id, at - 1);
    }
}

/// Going to the next tab and back, or back and forth, shows the tab one started
/// from. The next one stands behind it, and the first one behind the last.
pub proof fn law_next_then_previous(v: TabsView)
    requires
        shows_a_tab(v),
        v.route == route_of(v.tabs[v.index]),
    ensures
        ({
            let there = shown(v, index_after(v));
            &&& shown(there, index_before(there)) == v
            &&& there.index == v.index + 1 || (there.index == 0 && v.index == v.tabs.len() - 1)
        }),
        ({
            let there = shown(v, index_before(v));
            shown(there, index_after(there)) == v
        }),
{
}

/// Going to the next pane and back puts the keyboard where it was, over the ends of
/// tabs too.
pub proof fn law_next_pane_then_previous(v: TabsView)
    requires
        tabs_wf(v),
        shows_a_tab(v),
        !v.config.is_native,
    ensures
        ({
            let there = at_pane_after(v);
            let back = at_pane_before(there);
            &&& back.index == v.index
            &&& back.tabs[back.index].current == v.tabs[v.index].current
            &&& back.tabs[back.index].panes == v.tabs[v.index].panes
            &&& there.tabs.len() == v.tabs.len()
            &&& there.route == there.tabs[there.index].panes[there.tabs[there.index].current].route_id
            &&& v.tabs[v.index].current + 1 < v.tabs[v.index].panes.len() ==> there.index
                == v.index && there.tabs[there.index].current == v.tabs[v.index].current + 1
            &&& v.tabs[v.index].current + 1 == v.tabs[v.index].panes.len() ==> there.index
                == index_after(v) && there.tabs[there.index].current == 0
        }),
{
    assert(tab_wf(v.tabs[v.index]));
    assert(tab_wf(v.tabs[index_after(v)]));
}

/// A tab that is closed takes no other with it: the rest stay in their order, and
/// the one before it is shown, or the first one.
pub proof fn law_closing_a_tab_shows_the_one_before(v: TabsView)
    requires
        shows_a_tab(v),
        v.tabs.len() > 1,
    ensures
        ({
            let after = without_shown(v, v.index);
            &&& after.tabs == v.tabs.remove(v.index)
            &&& v.index == 0 ==> after.index == 0
            &&& v.index > 0 ==> after.index == v.index - 1
            &&& after.route == after.tabs[after.index].panes[after.tabs[after.index].current].route_id
        }),
{
}

/// In a tab with several panes a shell that ends takes its own pane with it and
/// nothing else. A tab with one pane goes with its shell, and the tab that is shown
/// stays unless it is that one.
pub proof fn law_a_shell_takes_its_own_pane(v: TabsView, route_id: usize, next: int)
    requires
        tabs_wf(v),
        shows_a_tab(v),
        v.route == route_of(v.tabs[v.index]),
    ensures
        ({
            let tab = v.tabs[v.index];
            let after = without_route(v, route_id, next);
            &&& tab.panes.len() > 1 && v.route == route_id ==> {
                &&& after.tabs.len() == v.tabs.len()
                &&& after.index == v.index
                &&& after.tabs[v.index].panes == tab.panes.remove(tab.current)
                &&& after.tabs[v.index].current == next
                &&& after.tabs[v.index].custom_title == tab.custom_title
                &&& forall|i: int|
                    0 <= i < v.tabs.len() && i != v.index ==> #[trigger] after.tabs[i] == v.tabs[i]
            }
            &&& tab.panes.len() > 1 && v.route != route_id ==> after == v
            &&& (forall|i: int|
                0 <= i < v.tabs.len() ==> route_of(#[trigger] v.tabs[i]) != route_id) ==> after == v
            &&& tab.panes.len() == 1 && v.route != route_id ==> after.route == v.route
            &&& after.tabs.len() >= v.tabs.len() - 1
        }),
{
    if v.tabs[v.index].panes.len() == 1 {
        lemma_tab_showing_found(v.tabs, route_id);
    }
}

proof fn lemma_tab_showing_found(tabs: Seq<TabView>, route_id: usize)
    ensures
        match tab_showing(tabs, route_id) {
            Some(i) => 0 <= i < tabs.len() && route_of(tabs[i]) == route_id,
            None => true,
        },
    decreases tabs.len(),
{
    if tabs.len() > 0 && route_of(tabs[0]) != route_id {
        lemma_tab_showing_found(tabs.skip(1), route_id);
        if tab_showing(tabs.skip(1), route_id) is Some {
            let i = tab_showing(tabs.skip(1), route_id)->0;
            assert(tabs.skip(1)[i] == tabs[i + 1]);
        }
    }
}

/// When the other tabs are closed, what is left shows what was shown.
pub proof fn law_the_focused_tab_stays(v: TabsView)
    requires
        shows_a_tab(v),
    ensures
        ({
            let after = with_focused_only(v);
            &&& after.tabs.contains(v.tabs[v.index])
            &&& forall|i: int|
                0 <= i < after.tabs.len() ==> route_of(#[trigger] after.tabs[i]) == route_of(
                    v.tabs[v.index],
                )
            &&& after.index == 0
            &&& after.route == route_of(v.tabs[v.index])
        }),
{
    let route_id = route_of(v.tabs[v.index]);
    let keeps = |t: TabView| route_of(t) == route_id;
    let left = v.tabs.filter(keeps);
    assert(keeps(v.tabs[v.index]));
    v.tabs.lemma_filter_contains(keeps, v.index);
    let k = left.index_of(v.tabs[v.index]);
    assert(left[k] == v.tabs[v.index]);
    assert forall|i: int| 0 <= i < left.len() implies route_of(#[trigger] left[i]) == route_id by {
        v.tabs.lemma_filter_pred(keeps, i);
        assert(keeps(left[i]));
    }
}

} // verus!
