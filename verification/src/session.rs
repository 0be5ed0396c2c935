//! What is saved of a session: windows, tabs, the tree of splits in each, and
//! the panes; and which saved files are accepted.
use crate::context::{AttachTarget, BackendView, PaneBackend, PaneSpawn, TargetView};
use crate::pane::opt_text;
use crate::text::{chars_of, decimal, push_decimal, same_text, text_between};
use vstd::prelude::*;
use vstd::string::StringExecFns;
use vstd::utf8::{encode_scalar, encode_utf8};

verus! {

/// Files of another shape are discarded.
pub const SESSION_VERSION: u32 = 2;

/// Files beyond this size, in bytes, are not read.
pub const MAX_FILE_BYTES: u64 = 64 * 1024 * 1024;

/// What is repainted of a pane at most, in bytes.
pub const MAX_PANE_SCROLLBACK_BYTES: usize = 8 * 1024 * 1024;

/// Each pane starts a shell; windows with more are not restored.
pub const MAX_WINDOW_PANES: usize = 256;

/// How the children of a split stand.
#[derive(Clone, Copy, Debug, PartialEq, Eq, Structural)]
pub enum SplitDir {
    Horizontal,
    Vertical,
}

/// A saved pane.
#[derive(Debug)]
pub struct PaneState {
    pub cwd: Option<String>,
    pub title: Option<String>,
    pub is_active: bool,
    /// Repainted where no live daemon replays the screen.
    pub scrollback: String,
    /// The daemon behind the pane.
    pub pane_id: Option<String>,
    pub socket: Option<String>,
    /// Where the daemon runs, if not here.
    pub host: Option<String>,
}

/// The mathematical value of a [`PaneState`].
#[verifier::ext_equal]
pub struct PaneView {
    pub cwd: Option<Seq<char>>,
    pub title: Option<Seq<char>>,
    pub is_active: bool,
    pub scrollback: Seq<char>,
    pub pane_id: Option<Seq<char>>,
    pub socket: Option<Seq<char>>,
    pub host: Option<Seq<char>>,
}

impl View for PaneState {
    type V = PaneView;

    open spec fn view(&self) -> PaneView {
        PaneView {
            cwd: opt_text(self.cwd),
            title: opt_text(self.title),
            is_active: self.is_active,
            scrollback: self.scrollback@,
            pane_id: opt_text(self.pane_id),
            socket: opt_text(self.socket),
            host: opt_text(self.host),
        }
    }
}

/// A tree of splits. A child's weight is its share of the split, as the bit
/// pattern of a single-precision number.
#[derive(Debug)]
pub enum LayoutNode {
    Leaf(PaneState),
    Split { direction: SplitDir, children: Vec<(u32, LayoutNode)> },
}

/// The mathematical value of a [`LayoutNode`].
pub enum LayoutView {
    Leaf(PaneView),
    Split { direction: SplitDir, children: Seq<(u32, LayoutView)> },
}

/// The value of a tree.
pub open spec fn layout_value(node: LayoutNode) -> LayoutView
    decreases node,
{
    match node {
        LayoutNode::Leaf(pane) => LayoutView::Leaf(pane@),
        LayoutNode::Split { direction, children } => LayoutView::Split {
            direction,
            children: Seq::new(
                children@.len(),
                |i: int|
                    if 0 <= i < children@.len() {
                        (children@[i].0, layout_value(children@[i].1))
                    } else {
                        arbitrary()
                    },
            ),
        },
    }
}

impl View for LayoutNode {
    type V = LayoutView;

    open spec fn view(&self) -> LayoutView {
        layout_value(*self)
    }
}

/// A saved tab.
#[derive(Debug)]
pub struct TabState {
    pub layout: LayoutNode,
    pub custom_title: Option<String>,
}

/// The mathematical value of a [`TabState`].
#[verifier::ext_equal]
pub struct TabStateView {
    pub layout: LayoutView,
    pub custom_title: Option<Seq<char>>,
}

impl View for TabState {
    type V = TabStateView;

    open spec fn view(&self) -> TabStateView {
        TabStateView { layout: self.layout@, custom_title: opt_text(self.custom_title) }
    }
}

pub open spec fn tab_states(tabs: Seq<TabState>) -> Seq<TabStateView> {
    Seq::new(tabs.len(), |i: int| tabs[i]@)
}

/// A saved window.
#[derive(Debug)]
pub struct WindowState {
    pub tabs: Vec<TabState>,
    pub active_tab: usize,
    /// In pixels; (0, 0) where unknown.
    pub size: (u32, u32),
    /// In pixels; absent where the windowing system places windows.
    pub position: Option<(i32, i32)>,
}

/// The mathematical value of a [`WindowState`].
#[verifier::ext_equal]
pub struct WindowView {
    pub tabs: Seq<TabStateView>,
    pub active_tab: usize,
    pub size: (u32, u32),
    pub position: Option<(i32, i32)>,
}

impl View for WindowState {
    type V = WindowView;

    open spec fn view(&self) -> WindowView {
        WindowView {
            tabs: tab_states(self.tabs@),
            active_tab: self.active_tab,
            size: self.size,
            position: self.position,
        }
    }
}

pub open spec fn window_states(windows: Seq<WindowState>) -> Seq<WindowView> {
    Seq::new(windows.len(), |i: int| windows[i]@)
}

/// A saved session.
#[derive(Debug)]
pub struct SessionState {
    pub version: u32,
    pub windows: Vec<WindowState>,
}

/// The mathematical value of a [`SessionState`].
#[verifier::ext_equal]
pub struct SessionView {
    pub version: u32,
    pub windows: Seq<WindowView>,
}

impl View for SessionState {
    type V = SessionView;

    open spec fn view(&self) -> SessionView {
        SessionView { version: self.version, windows: window_states(self.windows@) }
    }
}

// ---------------------------------------------------------------------------
// Panes.

/// The daemon that a pane attaches to.
pub open spec fn target_of(pane: PaneView) -> Option<TargetView> {
    match pane.pane_id {
        None => None,
        Some(pane_id) => match pane.host {
            Some(host) => Some(TargetView::Ssh { host, pane_id }),
            None => match pane.socket {
                Some(socket) => Some(TargetView::Unix { pane_id, socket }),
                None => None,
            },
        },
    }
}

pub open spec fn target_view(target: Option<AttachTarget>) -> Option<TargetView> {
    match target {
        Some(t) => Some(t@),
        None => None,
    }
}

pub(crate) fn copy_text(text: &Option<String>) -> (copy: Option<String>)
    ensures
        opt_text(copy) == opt_text(*text),
{
    match text {
        Some(t) => Some(t.clone()),
        None => None,
    }
}

impl PaneState {
    /// The daemon that this pane attaches to, if one is recorded.
    pub fn attach_target(&self) -> (target: Option<AttachTarget>)
        ensures
            target_view(target) == target_of(self@),
    {
        match &self.pane_id {
            None => None,
            Some(pane_id) => match &self.host {
                Some(host) => Some(
                    AttachTarget::Ssh { host: host.clone(), pane_id: pane_id.clone() },
                ),
                None => match &self.socket {
                    Some(socket) => Some(
                        AttachTarget::Unix { pane_id: pane_id.clone(), socket: socket.clone() },
                    ),
                    None => None,
                },
            },
        }
    }

    /// What this pane needs to come back.
    pub fn spawn(&self) -> (spawn: PaneSpawn)
        ensures
            opt_text(spawn.cwd) == self@.cwd,
            target_view(spawn.attach) == target_of(self@),
    {
        PaneSpawn { cwd: copy_text(&self.cwd), attach: self.attach_target() }
    }

    /// A pane with the same value.
    pub fn duplicate(&self) -> (copy: PaneState)
        ensures
            copy@ == self@,
    {
        PaneState {
            cwd: copy_text(&self.cwd),
            title: copy_text(&self.title),
            is_active: self.is_active,
            scrollback: self.scrollback.clone(),
            pane_id: copy_text(&self.pane_id),
            socket: copy_text(&self.socket),
            host: copy_text(&self.host),
        }
    }
}

/// What is saved of a live pane: the directory of its process where that can be
/// looked up, else the one its shell told, else the one its daemon told.
pub open spec fn captured(
    backend: BackendView,
    probed: Option<Seq<char>>,
    told: Option<Seq<char>>,
    title: Seq<char>,
    is_active: bool,
    scrollback: Seq<char>,
) -> PaneView {
    let local = !(backend matches BackendView::Ptyd { host: Some(_), .. });
    let seen = if local && probed is Some {
        probed
    } else {
        told
    };
    PaneView {
        cwd: match backend {
            BackendView::Ptyd { reported_cwd, .. } => if seen is Some {
                seen
            } else {
                reported_cwd
            },
            BackendView::Local => seen,
        },
        title: if title.len() == 0 {
            None
        } else {
            Some(title)
        },
        is_active,
        scrollback,
        pane_id: match backend {
            BackendView::Ptyd { pane_id, .. } => Some(pane_id),
            BackendView::Local => None,
        },
        socket: match backend {
            BackendView::Ptyd { socket, .. } => if socket.len() == 0 {
                None
            } else {
                Some(socket)
            },
            BackendView::Local => None,
        },
        host: match backend {
            BackendView::Ptyd { host, .. } => host,
            BackendView::Local => None,
        },
    }
}

fn nonempty(text: &String) -> (kept: Option<String>)
    ensures
        opt_text(kept) == if text@.len() == 0 {
            None
        } else {
            Some(text@)
        },
{
    proof {
        reveal_strlit("");
        assert(text@.len() == 0 ==> text@ =~= ""@);
    }
    if same_text(text.as_str(), "") {
        None
    } else {
        Some(text.clone())
    }
}

/// What is saved of a live pane.
pub fn capture_pane(
    backend: &PaneBackend,
    probed: Option<String>,
    told: Option<String>,
    title: String,
    is_active: bool,
    scrollback: String,
) -> (pane: PaneState)
    ensures
        pane@ == captured(
            backend@,
            opt_text(probed),
            opt_text(told),
            title@,
            is_active,
            scrollback@,
        ),
{
    let local = crate::context::probes_locally(backend);
    let seen: Option<String> = if local && probed.is_some() {
        probed
    } else {
        told
    };
    match backend {
        PaneBackend::Local => PaneState {
            cwd: seen,
            title: nonempty(&title),
            is_active,
            scrollback,
            pane_id: None,
            socket: None,
            host: None,
        },
        PaneBackend::Ptyd { pane_id, socket, host, reported_cwd, .. } => {
            let cwd: Option<String> = if seen.is_some() {
                seen
            } else {
                copy_text(reported_cwd)
            };
            PaneState {
                cwd,
                title: nonempty(&title),
                is_active,
                scrollback,
                pane_id: Some(pane_id.clone()),
                socket: nonempty(socket),
                host: copy_text(host),
            }
        },
    }
}

/// A saved pane is restored to the daemon it was captured from: a remote one at
/// its host, a local one at its socket.
pub proof fn law_a_captured_pane_finds_its_daemon(
    backend: BackendView,
    probed: Option<Seq<char>>,
    told: Option<Seq<char>>,
    title: Seq<char>,
    is_active: bool,
    scrollback: Seq<char>,
)
    requires
        backend matches BackendView::Ptyd { socket, host, .. } && (host is Some || socket.len() > 0),
    ensures
        ({
            let pane = captured(backend, probed, told, title, is_active, scrollback);
            match backend {
                BackendView::Ptyd { pane_id, socket, host, .. } => target_of(pane) == Some(
                    match host {
                        Some(h) => TargetView::Ssh { host: h, pane_id },
                        None => TargetView::Unix { pane_id, socket },
                    },
                ),
                BackendView::Local => false,
            }
        }),
{
}

/// Whether saved text is painted into a restored pane: not where a daemon
/// replays the screen, which would show it twice.
pub fn injects_scrollback(pane: &PaneState, backend: &PaneBackend) -> (inject: bool)
    ensures
        inject == (pane@.scrollback.len() > 0 && !(backend@ matches BackendView::Ptyd {
            replayed: true,
            ..
        })),
{
    proof {
        reveal_strlit("");
        assert(pane@.scrollback.len() == 0 ==> pane@.scrollback =~= ""@);
    }
    if same_text(pane.scrollback.as_str(), "") {
        return false;
    }
    match backend {
        PaneBackend::Ptyd { replayed, .. } => !*replayed,
        PaneBackend::Local => true,
    }
}

// ---------------------------------------------------------------------------
// Trees.

/// Whether a weight is a positive finite number: no sign, not zero, and no
/// infinity or other exponent beyond the numbers.
pub open spec fn good_weight(bits: u32) -> bool {
    0 < bits < 0x7F80_0000
}

/// Whether a tree can be used: every split has a child, and every weight is
/// good.
pub open spec fn usable(node: LayoutView) -> bool
    decreases node,
{
    match node {
        LayoutView::Leaf(_) => true,
        LayoutView::Split { children, .. } => children.len() > 0 && forall|i: int|
            0 <= i < children.len() ==> good_weight((#[trigger] children[i]).0) && usable(
                children[i].1,
            ),
    }
}

/// The first pane of a tree.
pub open spec fn first_of(node: LayoutView) -> PaneView
    decreases node,
{
    match node {
        LayoutView::Leaf(pane) => pane,
        LayoutView::Split { children, .. } => if children.len() > 0 {
            first_of(children[0].1)
        } else {
            arbitrary()
        },
    }
}

/// The panes of a tree, from left to right.
pub open spec fn leaves(node: LayoutView) -> Seq<PaneView>
    decreases node, 1int, 0nat,
{
    match node {
        LayoutView::Leaf(pane) => seq![pane],
        LayoutView::Split { children, .. } => leaves_of(children, children.len()),
    }
}

/// The panes of the first `n` children.
pub open spec fn leaves_of(children: Seq<(u32, LayoutView)>, n: nat) -> Seq<PaneView>
    decreases children, 0int, n,
{
    if n == 0 || n > children.len() {
        Seq::empty()
    } else {
        leaves_of(children, (n - 1) as nat) + leaves(children[n - 1].1)
    }
}

impl LayoutNode {
    /// Whether this tree can be used.
    pub fn well_formed(&self) -> (ok: bool)
        ensures
            ok == usable(self@),
        decreases *self,
    {
        match self {
            LayoutNode::Leaf(_) => true,
            LayoutNode::Split { children, .. } => {
                let ghost kids = self@->children;
                if children.len() == 0 {
                    return false;
                }
                let mut i: usize = 0;
                while i < children.len()
                    invariant
                        i <= children@.len(),
                        *self matches LayoutNode::Split { children: c, .. } && c == *children,
                        kids == self@->children,
                        kids.len() == children@.len(),
                        self@ is Split,
                        forall|j: int|
                            0 <= j < i ==> good_weight((#[trigger] kids[j]).0) && usable(kids[j].1),
                    decreases children.len() - i,
                {
                    let child = &children[i];
                    assert(kids[i as int] == (child.0, child.1@));
                    if !(0 < child.0 && child.0 < 0x7F80_0000) {
                        return false;
                    }
                    if !child.1.well_formed() {
                        return false;
                    }
                    i = i + 1;
                }
                true
            },
        }
    }

    /// The first pane of this tree.
    pub fn first_leaf(&self) -> (pane: &PaneState)
        requires
            usable(self@),
        ensures
            pane@ == first_of(self@),
        decreases *self,
    {
        match self {
            LayoutNode::Leaf(pane) => pane,
            LayoutNode::Split { children, .. } => {
                let child = &children[0];
                assert(self@->children[0] == (child.0, child.1@));
                child.1.first_leaf()
            },
        }
    }

    /// How many panes this tree has, counted on from `from` and up to `limit`.
    fn count_leaves(&self, from: usize, limit: usize) -> (n: usize)
        requires
            from <= limit,
        ensures
            n == if from + leaves(self@).len() <= limit {
                from + leaves(self@).len()
            } else {
                limit as int
            },
        decreases *self,
    {
        match self {
            LayoutNode::Leaf(_) => if from < limit {
                from + 1
            } else {
                limit
            },
            LayoutNode::Split { children, .. } => {
                let ghost kids = self@->children;
                let mut n: usize = from;
                let mut i: usize = 0;
                while i < children.len()
                    invariant
                        i <= children@.len(),
                        *self matches LayoutNode::Split { children: c, .. } && c == *children,
                        kids == self@->children,
                        kids.len() == children@.len(),
                        from <= limit,
                        n <= limit,
                        n == if from + leaves_of(kids, i as nat).len() <= limit {
                            from + leaves_of(kids, i as nat).len()
                        } else {
                            limit as int
                        },
                    decreases children.len() - i,
                {
                    let child = &children[i];
                    assert(kids[i as int] == (child.0, child.1@));
                    n = child.1.count_leaves(n, limit);
                    i = i + 1;
                }
                n
            },
        }
    }

    /// How many panes this tree has.
    pub fn leaf_count(&self) -> (n: usize)
        requires
            leaves(self@).len() <= usize::MAX,
        ensures
            n == leaves(self@).len(),
    {
        self.count_leaves(0, usize::MAX)
    }
}

// ---------------------------------------------------------------------------
// Accepting a file.

/// The longest end of a text whose encoding fits.
pub open spec fn capped_text(text: Seq<char>, max: int) -> Seq<char>
    decreases text.len(),
{
    if text.len() == 0 || encode_utf8(text).len() <= max {
        text
    } else {
        capped_text(text.skip(1), max)
    }
}

/// How many bytes a character is encoded in.
pub(crate) fn encoded_len(c: char) -> (n: usize)
    ensures
        n == encode_scalar(c as u32).len(),
        1 <= n <= 4,
{
    let scalar: u32 = c as u32;
    if scalar <= 0x7F {
        1
    } else if scalar <= 0x7FF {
        2
    } else if scalar <= 0xFFFF {
        3
    } else {
        4
    }
}

proof fn lemma_capped(text: Seq<char>, max: int, from: int, at: int)
    requires
        0 <= from <= at <= text.len(),
        at < text.len() ==> encode_utf8(text.skip(at)).len() <= max,
        forall|j: int| from <= j < at ==> encode_utf8(#[trigger] text.skip(j)).len() > max,
    ensures
        capped_text(text.skip(from), max) == text.skip(at),
    decreases at - from,
{
    if from < at {
        lemma_capped(text, max, from + 1, at);
        assert(text.skip(from).skip(1) =~= text.skip(from + 1));
        assert(encode_utf8(text.skip(from)).len() > max);
    } else if at == text.len() {
        assert(text.skip(at).len() == 0);
    }
}

pub(crate) proof fn lemma_encoding_step(text: Seq<char>, i: int)
    requires
        0 <= i < text.len(),
    ensures
        encode_utf8(text.skip(i)).len() == encode_scalar(text[i] as u32).len() + encode_utf8(
            text.skip(i + 1),
        ).len(),
{
    assert(text.skip(i).drop_first() =~= text.skip(i + 1));
    assert(text.skip(i)[0] == text[i]);
}

proof fn lemma_encoding_shrinks(text: Seq<char>, i: int, j: int)
    requires
        0 <= i <= j <= text.len(),
    ensures
        encode_utf8(text.skip(j)).len() <= encode_utf8(text.skip(i)).len(),
    decreases j - i,
{
    if i < j {
        lemma_encoding_step(text, i);
        lemma_encoding_shrinks(text, i + 1, j);
    }
}

/// The longest end of a text whose encoding fits.
pub(crate) fn cap_text(text: String, max: usize) -> (kept: String)
    ensures
        kept@ == capped_text(text@, max as int),
{
    proof {
        vstd::utf8::encode_utf8_decode_utf8(text@);
    }
    if text.as_str().as_bytes().len() <= max {
        return text;
    }
    let chars = chars_of(text.as_str());
    let mut at: usize = chars.len();
    let mut size: usize = 0;
    assert(text@.skip(at as int) =~= Seq::<char>::empty());
    while at > 0
        invariant_except_break
            at <= chars@.len(),
            chars@ == text@,
            size <= max,
            size == encode_utf8(text@.skip(at as int)).len(),
        ensures
            at <= chars@.len(),
            chars@ == text@,
            encode_utf8(text@.skip(at as int)).len() <= max,
            at > 0 ==> encode_utf8(text@.skip(at - 1)).len() > max,
        decreases at,
    {
        let n: usize = encoded_len(chars[at - 1]);
        proof {
            lemma_encoding_step(text@, at - 1);
        }
        if n > max - size {
            break;
        }
        size = size + n;
        at = at - 1;
    }
    proof {
        assert forall|j: int| 0 <= j < at implies encode_utf8(#[trigger] text@.skip(j)).len()
            > max by {
            lemma_encoding_shrinks(text@, j, at - 1);
        }
        lemma_capped(text@, max as int, 0, at as int);
        assert(text@.skip(0) =~= text@);
        assert(text@.skip(at as int) =~= text@.subrange(at as int, text@.len() as int));
    }
    text_between(&chars, at, chars.len())
}

/// A tree whose panes repaint no more than they may.
pub open spec fn capped_layout(node: LayoutView) -> LayoutView
    decreases node,
{
    match node {
        LayoutView::Leaf(pane) => LayoutView::Leaf(
            PaneView {
                scrollback: capped_text(pane.scrollback, MAX_PANE_SCROLLBACK_BYTES as int),
                ..pane
            },
        ),
        LayoutView::Split { direction, children } => LayoutView::Split {
            direction,
            children: Seq::new(
                children.len(),
                |i: int|
                    if 0 <= i < children.len() {
                        (children[i].0, capped_layout(children[i].1))
                    } else {
                        arbitrary()
                    },
            ),
        },
    }
}

fn cap_scrollback(node: LayoutNode) -> (out: LayoutNode)
    ensures
        out@ == capped_layout(node@),
    decreases node,
{
    match node {
        LayoutNode::Leaf(pane) => {
            let mut pane = pane;
            let scrollback = cap_text(pane.scrollback, MAX_PANE_SCROLLBACK_BYTES);
            pane.scrollback = scrollback;
            LayoutNode::Leaf(pane)
        },
        LayoutNode::Split { direction, children } => {
            let ghost kids = children@;
            let ghost values = node@->children;
            let mut out: Vec<(u32, LayoutNode)> = Vec::new();
            for child in it: children
                invariant
                    it.seq() == kids,
                    node matches LayoutNode::Split { children: c, .. } && c@ == kids,
                    values == node@->children,
                    values.len() == kids.len(),
                    out@.len() == it.index(),
                    forall|j: int|
                        0 <= j < out@.len() ==> (#[trigger] out@[j]).0 == values[j].0
                            && out@[j].1@ == capped_layout(values[j].1),
            {
                let ghost k = it.index() as int;
                assert(child == kids[k]);
                assert(values[k] == (child.0, child.1@));
                let (weight, sub) = child;
                out.push((weight, cap_scrollback(sub)));
            }
            let capped = LayoutNode::Split { direction, children: out };
            assert(capped@->children =~= capped_layout(node@)->children);
            capped
        },
    }
}

/// The panes of tabs.
pub open spec fn tab_panes(tabs: Seq<TabStateView>) -> Seq<PaneView>
    decreases tabs.len(),
{
    if tabs.len() == 0 {
        Seq::empty()
    } else {
        tab_panes(tabs.drop_last()) + leaves(tabs.last().layout)
    }
}

/// The panes of windows.
pub open spec fn window_panes(windows: Seq<WindowView>) -> Seq<PaneView>
    decreases windows.len(),
{
    if windows.len() == 0 {
        Seq::empty()
    } else {
        window_panes(windows.drop_last()) + tab_panes(windows.last().tabs)
    }
}

/// Whether the tabs of a window can be restored.
pub open spec fn usable_tabs(tabs: Seq<TabStateView>) -> bool {
    forall|i: int| 0 <= i < tabs.len() ==> usable((#[trigger] tabs[i]).layout)
}

/// Whether a window can be restored.
pub open spec fn acceptable_window(w: WindowView) -> bool {
    usable_tabs(w.tabs) && tab_panes(w.tabs).len() <= MAX_WINDOW_PANES
}

/// Whether a session can be restored.
pub open spec fn acceptable(s: SessionView) -> bool {
    &&& s.version == SESSION_VERSION
    &&& s.windows.len() > 0
    &&& forall|i: int| 0 <= i < s.windows.len() ==> acceptable_window(#[trigger] s.windows[i])
}

pub open spec fn capped_tabs(tabs: Seq<TabStateView>) -> Seq<TabStateView> {
    Seq::new(
        tabs.len(),
        |i: int| TabStateView { layout: capped_layout(tabs[i].layout), ..tabs[i] },
    )
}

/// A session whose panes repaint no more than they may.
pub open spec fn capped_session(s: SessionView) -> SessionView {
    SessionView {
        windows: Seq::new(
            s.windows.len(),
            |i: int| WindowView { tabs: capped_tabs(s.windows[i].tabs), ..s.windows[i] },
        ),
        ..s
    }
}

fn window_fits(w: &WindowState) -> (ok: bool)
    ensures
        ok == acceptable_window(w@),
{
    let mut n: usize = 0;
    let mut i: usize = 0;
    let ghost tabs = w@.tabs;
    let limit: usize = MAX_WINDOW_PANES + 1;
    assert(tabs.take(0) =~= Seq::<TabStateView>::empty());
    while i < w.tabs.len()
        invariant
            i <= w.tabs@.len(),
            tabs == tab_states(w.tabs@),
            limit == MAX_WINDOW_PANES + 1,
            n <= limit,
            forall|j: int| 0 <= j < i ==> usable((#[trigger] tabs[j]).layout),
            n == if tab_panes(tabs.take(i as int)).len() <= limit {
                tab_panes(tabs.take(i as int)).len() as int
            } else {
                limit as int
            },
        decreases w.tabs.len() - i,
    {
        let layout = &w.tabs[i].layout;
        assert(tabs[i as int].layout == layout@);
        if !layout.well_formed() {
            return false;
        }
        n = layout.count_leaves(n, limit);
        assert(tabs.take(i + 1).drop_last() =~= tabs.take(i as int));
        i = i + 1;
    }
    assert(tabs.take(i as int) =~= tabs);
    n <= MAX_WINDOW_PANES
}

fn cap_window(w: WindowState) -> (out: WindowState)
    ensures
        out@ == (WindowView { tabs: capped_tabs(w@.tabs), ..w@ }),
{
    let ghost old_tabs = w@.tabs;
    let ghost held = w.tabs@;
    let mut tabs: Vec<TabState> = Vec::new();
    for tab in it: w.tabs
        invariant
            it.seq() == held,
            old_tabs == tab_states(held),
            tabs@.len() == it.index(),
            forall|j: int|
                0 <= j < tabs@.len() ==> (#[trigger] tabs@[j])@ == capped_tabs(old_tabs)[j],
    {
        let ghost k = it.index() as int;
        assert(tab == held[k]);
        assert(old_tabs[k] == tab@);
        let TabState { layout, custom_title } = tab;
        tabs.push(TabState { layout: cap_scrollback(layout), custom_title });
    }
    assert(tab_states(tabs@) =~= capped_tabs(old_tabs));
    WindowState { tabs, active_tab: w.active_tab, size: w.size, position: w.position }
}

/// Whether a file is small enough to be read.
pub fn file_is_readable(len: u64) -> (readable: bool)
    ensures
        readable == (len <= MAX_FILE_BYTES),
{
    len <= MAX_FILE_BYTES
}

impl SessionState {
    /// Takes a session that was read: none is made of one of another shape,
    /// without windows, with a tree that cannot be used or with too many panes
    /// in a window.
    pub fn accept(state: SessionState) -> (accepted: Option<SessionState>)
        ensures
            match accepted {
                Some(s) => acceptable(state@) && s@ == capped_session(state@),
                None => !acceptable(state@),
            },
    {
        if state.version != SESSION_VERSION || state.windows.len() == 0 {
            return None;
        }
        let ghost old_windows = state@.windows;
        let mut i: usize = 0;
        while i < state.windows.len()
            invariant
                i <= state.windows@.len(),
                old_windows == window_states(state.windows@),
                old_windows == state@.windows,
                forall|j: int| 0 <= j < i ==> acceptable_window(#[trigger] old_windows[j]),
            decreases state.windows.len() - i,
        {
            assert(old_windows[i as int] == state.windows@[i as int]@);
            if !window_fits(&state.windows[i]) {
                return None;
            }
            i = i + 1;
        }
        let mut windows: Vec<WindowState> = Vec::new();
        let ghost held = state.windows@;
        for w in it: state.windows
            invariant
                it.seq() == held,
                old_windows == window_states(held),
                windows@.len() == it.index(),
                forall|j: int|
                    0 <= j < windows@.len() ==> (#[trigger] windows@[j])@ == (WindowView {
                        tabs: capped_tabs(old_windows[j].tabs),
                        ..old_windows[j]
                    }),
        {
            let ghost k = it.index() as int;
            assert(w == held[k]);
            assert(old_windows[k] == w@);
            windows.push(cap_window(w));
        }
        assert(window_states(windows@) =~= capped_session(state@).windows);
        Some(SessionState { version: state.version, windows })
    }
}

/// Where a session is written before it takes the place of the file.
pub fn temp_path(path: &[u8], pid: u32) -> (temp: Vec<u8>)
    ensures
        temp@ == path@ + encode_utf8(".tmp."@) + decimal(pid as nat),
{
    let mut temp: Vec<u8> = Vec::new();
    temp.extend_from_slice(path);
    temp.extend_from_slice(".tmp.".as_bytes());
    push_decimal(&mut temp, pid as u64);
    temp
}

// ---------------------------------------------------------------------------
// Copies.

impl LayoutNode {
    /// A tree with the same value.
    pub fn duplicate(&self) -> (copy: LayoutNode)
        ensures
            copy@ == self@,
        decreases *self,
    {
        match self {
            LayoutNode::Leaf(pane) => LayoutNode::Leaf(pane.duplicate()),
            LayoutNode::Split { direction, children } => {
                let ghost kids = self@->children;
                let mut out: Vec<(u32, LayoutNode)> = Vec::new();
                let mut i: usize = 0;
                while i < children.len()
                    invariant
                        i <= children@.len(),
                        *self matches LayoutNode::Split { children: c, .. } && c == *children,
                        kids == self@->children,
                        kids.len() == children@.len(),
                        out@.len() == i,
                        forall|j: int|
                            0 <= j < i ==> (#[trigger] out@[j]).0 == kids[j].0 && out@[j].1@
                                == kids[j].1,
                    decreases children.len() - i,
                {
                    let child = &children[i];
                    assert(kids[i as int] == (child.0, child.1@));
                    out.push((child.0, child.1.duplicate()));
                    i = i + 1;
                }
                let copy = LayoutNode::Split { direction: *direction, children: out };
                assert(copy@->children =~= kids);
                copy
            },
        }
    }
}

impl WindowState {
    /// A window with the same value.
    pub fn duplicate(&self) -> (copy: WindowState)
        ensures
            copy@ == self@,
    {
        let mut tabs: Vec<TabState> = Vec::new();
        let mut i: usize = 0;
        while i < self.tabs.len()
            invariant
                i <= self.tabs@.len(),
                tabs@.len() == i,
                forall|j: int| 0 <= j < i ==> (#[trigger] tabs@[j])@ == self.tabs@[j]@,
            decreases self.tabs.len() - i,
        {
            let tab = &self.tabs[i];
            tabs.push(
                TabState {
                    layout: tab.layout.duplicate(),
                    custom_title: copy_text(&tab.custom_title),
                },
            );
            i = i + 1;
        }
        assert(tab_states(tabs@) =~= self@.tabs);
        WindowState {
            tabs,
            active_tab: self.active_tab,
            size: self.size,
            position: self.position,
        }
    }
}

/// What is repainted of a pane is bounded, and is the end of what was saved.
pub proof fn law_repaint_is_bounded(text: Seq<char>, max: int)
    requires
        max >= 0,
    ensures
        encode_utf8(capped_text(text, max)).len() <= max,
        crate::text::ends_with(text, capped_text(text, max)),
    decreases text.len(),
{
    if text.len() == 0 {
        assert(capped_text(text, max) =~= Seq::<char>::empty());
        assert(text.skip(0) =~= text);
    } else if encode_utf8(text).len() <= max {
        assert(text.skip(0) =~= text);
    } else {
        let rest = text.skip(1);
        law_repaint_is_bounded(rest, max);
        let kept = capped_text(rest, max);
        assert(text.skip(text.len() - kept.len()) =~= rest.skip(rest.len() - kept.len()));
    }
}

} // verus!
