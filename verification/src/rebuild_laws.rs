//! What the steps of a rebuild come to, done one after the other in a tab.
use crate::rebuild::{
    active_slot_of, child_slot, child_steps, slots, slots_of, split_steps, step_is_due, steps_for,
    Step, StepView,
};
use crate::session::{first_of, usable, LayoutView, SplitDir};
use vstd::prelude::*;

verus! {

/// The panes of a tab as they stand: one pane, by its slot, or two parts of which
/// the second lies behind the first in a direction.
pub enum Arranged {
    Pane(nat),
    Pair(SplitDir, Box<Arranged>, Box<Arranged>),
}

/// An arrangement with something in the place of a pane.
pub open spec fn replaced(tree: Arranged, slot: nat, by: Arranged) -> Arranged
    decreases tree,
{
    match tree {
        Arranged::Pane(s) => if s == slot {
            by
        } else {
            tree
        },
        Arranged::Pair(d, a, b) => Arranged::Pair(
            d,
            Box::new(replaced(*a, slot, by)),
            Box::new(replaced(*b, slot, by)),
        ),
    }
}

/// A tab: its panes, and which one has the keyboard.
pub struct Tab {
    pub tree: Arranged,
    pub focus: nat,
}

pub open spec fn pair(d: SplitDir, a: Arranged, b: Arranged) -> Arranged {
    Arranged::Pair(d, Box::new(a), Box::new(b))
}

/// A tab after a step: a split puts a new pane behind the one with the keyboard,
/// in its direction, and hands the keyboard to it.
pub open spec fn done(t: Tab, step: StepView) -> Tab {
    match step {
        StepView::Select { slot } => Tab { focus: slot, ..t },
        StepView::Split { slot, direction, .. } => Tab {
            tree: replaced(
                t.tree,
                t.focus,
                pair(direction, Arranged::Pane(t.focus), Arranged::Pane(slot)),
            ),
            focus: slot,
        },
        StepView::Paint { .. } => t,
    }
}

/// A tab after steps.
pub open spec fn all_done(t: Tab, steps: Seq<StepView>) -> Tab
    decreases steps.len(),
{
    if steps.len() == 0 {
        t
    } else {
        done(all_done(t, steps.drop_last()), steps.last())
    }
}

proof fn lemma_done_sum(t: Tab, a: Seq<StepView>, b: Seq<StepView>)
    ensures
        all_done(t, a + b) == all_done(all_done(t, a), b),
    decreases b.len(),
{
    if b.len() == 0 {
        assert(a + b =~= a);
    } else {
        lemma_done_sum(t, a, b.drop_last());
        assert((a + b).drop_last() =~= a + b.drop_last());
    }
}

/// Whether an arrangement is that of a saved tree: the parts of a split stand one
/// behind the other in its direction, each arranged as it was.
pub open spec fn is_arranged(tree: Arranged, node: LayoutView) -> bool
    decreases node, 1int, 0nat,
{
    match node {
        LayoutView::Leaf(_) => tree is Pane,
        LayoutView::Split { direction, children } => is_row(
            tree,
            direction,
            children,
            children.len(),
        ),
    }
}

/// Whether an arrangement is that of the last `n` children of a split.
pub open spec fn is_row(
    tree: Arranged,
    direction: SplitDir,
    children: Seq<(u32, LayoutView)>,
    n: nat,
) -> bool
    decreases children, 0int, n,
{
    if n == 0 || n > children.len() {
        false
    } else if n == 1 {
        is_arranged(tree, children[children.len() - 1].1)
    } else {
        match tree {
            Arranged::Pane(_) => false,
            Arranged::Pair(d, a, b) => {
                &&& d == direction
                &&& is_arranged(*a, children[children.len() - n].1)
                &&& is_row(*b, direction, children, (n - 1) as nat)
            },
        }
    }
}

/// The slots of an arrangement, in the order of its panes.
pub open spec fn slots_in(tree: Arranged) -> Seq<nat>
    decreases tree,
{
    match tree {
        Arranged::Pane(s) => seq![s],
        Arranged::Pair(_, a, b) => slots_in(*a) + slots_in(*b),
    }
}

/// The slots that steps paint.
pub open spec fn slots_painted(steps: Seq<StepView>) -> Seq<nat>
    decreases steps.len(),
{
    if steps.len() == 0 {
        Seq::empty()
    } else {
        let before = slots_painted(steps.drop_last());
        match steps.last() {
            StepView::Paint { slot, .. } => before.push(slot),
            _ => before,
        }
    }
}

proof fn lemma_slots_painted_sum(a: Seq<StepView>, b: Seq<StepView>)
    ensures
        slots_painted(a + b) == slots_painted(a) + slots_painted(b),
    decreases b.len(),
{
    if b.len() == 0 {
        assert(a + b =~= a);
        assert(slots_painted(a) + slots_painted(b) =~= slots_painted(a));
    } else {
        lemma_slots_painted_sum(a, b.drop_last());
        assert((a + b).drop_last() =~= a + b.drop_last());
        assert(slots_painted(a + b) =~= slots_painted(a) + slots_painted(b));
    }
}

/// Whether all slots of an arrangement are the base slot or in a range.
spec fn within(tree: Arranged, base: nat, from: nat, to: nat) -> bool
    decreases tree,
{
    match tree {
        Arranged::Pane(s) => s == base || from <= s < to,
        Arranged::Pair(_, a, b) => within(*a, base, from, to) && within(*b, base, from, to),
    }
}

/// Whether all slots are below a number.
spec fn below(tree: Arranged, n: nat) -> bool
    decreases tree,
{
    match tree {
        Arranged::Pane(s) => s < n,
        Arranged::Pair(_, a, b) => below(*a, n) && below(*b, n),
    }
}

proof fn lemma_replace_absent(tree: Arranged, slot: nat, by: Arranged, base: nat, from: nat, to: nat)
    requires
        within(tree, base, from, to),
        slot != base,
        !(from <= slot < to),
    ensures
        replaced(tree, slot, by) == tree,
    decreases tree,
{
    if let Arranged::Pair(_, a, b) = tree {
        lemma_replace_absent(*a, slot, by, base, from, to);
        lemma_replace_absent(*b, slot, by, base, from, to);
    }
}

proof fn lemma_replace_twice(tree: Arranged, base: nat, part: Arranged, slot: nat, by: Arranged, n: nat)
    requires
        below(tree, n),
        slot == base || slot >= n,
    ensures
        replaced(replaced(tree, base, part), slot, by) == replaced(
            tree,
            base,
            replaced(part, slot, by),
        ),
    decreases tree,
{
    if let Arranged::Pair(_, a, b) = tree {
        lemma_replace_twice(*a, base, part, slot, by, n);
        lemma_replace_twice(*b, base, part, slot, by, n);
    }
}

proof fn lemma_within_below(part: Arranged, base: nat, from: nat, to: nat)
    requires
        base < from <= to,
        within(part, base, from, to),
    ensures
        below(part, to),
    decreases part,
{
    if let Arranged::Pair(_, a, b) = part {
        lemma_within_below(*a, base, from, to);
        lemma_within_below(*b, base, from, to);
    }
}

proof fn lemma_within_wider(part: Arranged, base: nat, from: nat, to: nat, base2: nat, from2: nat, to2: nat)
    requires
        within(part, base, from, to),
        base == base2 || from2 <= base < to2,
        from2 <= from,
        to <= to2,
    ensures
        within(part, base2, from2, to2),
    decreases part,
{
    if let Arranged::Pair(_, a, b) = part {
        lemma_within_wider(*a, base, from, to, base2, from2, to2);
        lemma_within_wider(*b, base, from, to, base2, from2, to2);
    }
}

// ---------------------------------------------------------------------------
// What is built.

/// What the steps for a tree build in its slot.
spec fn built(node: LayoutView, base: nat, next: nat) -> Arranged
    decreases node, 1int, 0nat,
{
    match node {
        LayoutView::Leaf(_) => Arranged::Pane(base),
        LayoutView::Split { direction, children } => row(
            direction,
            children,
            base,
            next,
            children.len(),
            children.len(),
            children.len(),
        ),
    }
}

/// The last `n` of the first `m` children of a split in a row, of which the first
/// `k` children are built.
spec fn row(
    direction: SplitDir,
    children: Seq<(u32, LayoutView)>,
    base: nat,
    next: nat,
    m: nat,
    k: nat,
    n: nat,
) -> Arranged
    decreases children, 0int, n,
{
    if n == 0 || n > m || m > children.len() {
        Arranged::Pane(base)
    } else {
        let i = (m - n) as nat;
        let slot = child_slot(base, next, i);
        let one = if i < k {
            built(
                children[i as int].1,
                slot,
                next + (children.len() - 1) as nat + slots_of(children, i),
            )
        } else {
            Arranged::Pane(slot)
        };
        if n == 1 {
            one
        } else {
            pair(direction, one, row(direction, children, base, next, m, k, (n - 1) as nat))
        }
    }
}

proof fn lemma_slots_of_grow(children: Seq<(u32, LayoutView)>, a: nat, b: nat)
    requires
        a <= b <= children.len(),
    ensures
        slots_of(children, a) <= slots_of(children, b),
    decreases b - a,
{
    if a < b {
        lemma_slots_of_grow(children, a, (b - 1) as nat);
    }
}

proof fn lemma_built_within(node: LayoutView, base: nat, next: nat)
    requires
        base < next,
        usable(node),
    ensures
        within(built(node, base, next), base, next, next + slots(node)),
    decreases node, 1int, 0nat,
{
    if let LayoutView::Split { direction, children } = node {
        lemma_row_within(
            direction,
            children,
            base,
            next,
            children.len(),
            children.len(),
            children.len(),
        );
    }
}

/// Whether all children can be rebuilt.
spec fn all_usable(children: Seq<(u32, LayoutView)>) -> bool {
    forall|i: int| 0 <= i < children.len() ==> usable((#[trigger] children[i]).1)
}

proof fn lemma_row_within(
    direction: SplitDir,
    children: Seq<(u32, LayoutView)>,
    base: nat,
    next: nat,
    m: nat,
    k: nat,
    n: nat,
)
    requires
        base < next,
        0 < n <= m <= children.len(),
        all_usable(children),
    ensures
        within(
            row(direction, children, base, next, m, k, n),
            base,
            next,
            next + (children.len() - 1) as nat + slots_of(children, children.len()),
        ),
    decreases children, 0int, n,
{
    reveal_with_fuel(within, 2);
    let i = (m - n) as nat;
    let slot = child_slot(base, next, i);
    let free = next + (children.len() - 1) as nat + slots_of(children, i);
    let end = next + (children.len() - 1) as nat + slots_of(children, children.len());
    lemma_slots_of_grow(children, i, children.len());
    lemma_slots_of_grow(children, i + 1, children.len());
    assert(usable(children[i as int].1));
    if i < k {
        let one = built(children[i as int].1, slot, free);
        lemma_built_within(children[i as int].1, slot, free);
        lemma_within_wider(one, slot, free, free + slots(children[i as int].1), base, next, end);
    }
    if n > 1 {
        lemma_row_within(direction, children, base, next, m, k, (n - 1) as nat);
    }
}

/// One more split makes the row one pane longer.
proof fn lemma_row_grows(
    direction: SplitDir,
    children: Seq<(u32, LayoutView)>,
    base: nat,
    next: nat,
    m: nat,
    n: nat,
)
    requires
        base < next,
        0 < n <= m < children.len(),
    ensures
        ({
            let last = child_slot(base, next, (m - 1) as nat);
            let new = child_slot(base, next, m);
            replaced(
                row(direction, children, base, next, m, 0, n),
                last,
                pair(direction, Arranged::Pane(last), Arranged::Pane(new)),
            ) == row(direction, children, base, next, m + 1, 0, n + 1)
        }),
    decreases n,
{
    reveal_with_fuel(row, 3);
    reveal_with_fuel(replaced, 3);
    let last = child_slot(base, next, (m - 1) as nat);
    let i = (m - n) as nat;
    let slot = child_slot(base, next, i);
    if n > 1 {
        assert(slot != last);
        lemma_row_grows(direction, children, base, next, m, (n - 1) as nat);
    }
}

/// Building one more child in its slot changes the row there and nowhere else.
proof fn lemma_row_built(
    direction: SplitDir,
    children: Seq<(u32, LayoutView)>,
    base: nat,
    next: nat,
    k: nat,
    n: nat,
)
    requires
        base < next,
        0 < n <= children.len(),
        k < children.len(),
        all_usable(children),
    ensures
        ({
            let slot = child_slot(base, next, k);
            let free = next + (children.len() - 1) as nat + slots_of(children, k);
            replaced(
                row(direction, children, base, next, children.len(), k, n),
                slot,
                built(children[k as int].1, slot, free),
            ) == row(direction, children, base, next, children.len(), k + 1, n)
        }),
    decreases n,
{
    reveal_with_fuel(row, 2);
    reveal_with_fuel(replaced, 3);
    let slot = child_slot(base, next, k);
    let free = next + (children.len() - 1) as nat + slots_of(children, k);
    let by = built(children[k as int].1, slot, free);
    let i = (children.len() - n) as nat;
    let mine = child_slot(base, next, i);
    let my_free = next + (children.len() - 1) as nat + slots_of(children, i);
    if i < k {
        assert(usable(children[i as int].1));
        let one = built(children[i as int].1, mine, my_free);
        lemma_built_within(children[i as int].1, mine, my_free);
        lemma_replace_absent(
            one,
            slot,
            by,
            mine,
            my_free,
            my_free + slots(children[i as int].1),
        );
    }
    if n > 1 {
        lemma_row_built(direction, children, base, next, k, (n - 1) as nat);
    }
}

proof fn lemma_splits_done(
    t: Tab,
    direction: SplitDir,
    children: Seq<(u32, LayoutView)>,
    base: nat,
    next: nat,
    m: nat,
)
    requires
        base < next,
        below(t.tree, next),
        t.focus == base,
        0 < m <= children.len(),
    ensures
        all_done(t, split_steps(direction, children, base, next, m)) == (Tab {
            tree: replaced(t.tree, base, row(direction, children, base, next, m, 0, m)),
            focus: child_slot(base, next, (m - 1) as nat),
        }),
    decreases m,
{
    if m == 1 {
        lemma_replace_self(t.tree, base);
        reveal_with_fuel(row, 2);
    } else {
        let before = (m - 1) as nat;
        lemma_splits_done(t, direction, children, base, next, before);
        let steps = split_steps(direction, children, base, next, m);
        assert(steps.drop_last() =~= split_steps(direction, children, base, next, before));
        let last = child_slot(base, next, (m - 2) as nat);
        let new = child_slot(base, next, before);
        let part = row(direction, children, base, next, before, 0, before);
        let two = pair(direction, Arranged::Pane(last), Arranged::Pane(new));
        lemma_replace_twice(t.tree, base, part, last, two, next);
        lemma_row_grows(direction, children, base, next, before, before);
    }
}

proof fn lemma_replace_self(tree: Arranged, slot: nat)
    ensures
        replaced(tree, slot, Arranged::Pane(slot)) == tree,
    decreases tree,
{
    if let Arranged::Pair(_, a, b) = tree {
        lemma_replace_self(*a, slot);
        lemma_replace_self(*b, slot);
    }
}

proof fn lemma_steps_done(t: Tab, node: LayoutView, base: nat, next: nat)
    requires
        base < next,
        below(t.tree, next),
        t.focus == base,
        usable(node),
    ensures
        all_done(t, steps_for(node, base, next)).tree == replaced(
            t.tree,
            base,
            built(node, base, next),
        ),
    decreases node, 1int, 0nat,
{
    match node {
        LayoutView::Leaf(pane) => {
            lemma_replace_self(t.tree, base);
            let steps = seq![StepView::Paint { slot: base, pane }];
            assert(steps_for(node, base, next) =~= steps);
            assert(steps.drop_last() =~= Seq::<StepView>::empty());
            assert(all_done(t, steps.drop_last()) == t);
        },
        LayoutView::Split { direction, children } => {
            let n = children.len();
            let a = split_steps(direction, children, base, next, n);
            let b = child_steps(children, base, next, n);
            lemma_splits_done(t, direction, children, base, next, n);
            lemma_done_sum(t, a, b);
            assert(all_usable(children));
            lemma_children_done(all_done(t, a), t.tree, direction, children, base, next, n);
        },
    }
}

proof fn lemma_children_done(
    t: Tab,
    tree: Arranged,
    direction: SplitDir,
    children: Seq<(u32, LayoutView)>,
    base: nat,
    next: nat,
    k: nat,
)
    requires
        base < next,
        below(tree, next),
        k <= children.len(),
        children.len() > 0,
        all_usable(children),
        t.tree == replaced(
            tree,
            base,
            row(direction, children, base, next, children.len(), 0, children.len()),
        ),
    ensures
        all_done(t, child_steps(children, base, next, k)).tree == replaced(
            tree,
            base,
            row(direction, children, base, next, children.len(), k, children.len()),
        ),
    decreases children, 0int, k,
{
    let n = children.len();
    if k > 0 {
        let before = (k - 1) as nat;
        lemma_children_done(t, tree, direction, children, base, next, before);
        let slot = child_slot(base, next, before);
        let free = next + (n - 1) as nat + slots_of(children, before);
        let a = child_steps(children, base, next, before);
        let select = seq![StepView::Select { slot }];
        let b = steps_for(children[before as int].1, slot, free);
        lemma_done_sum(t, a, select);
        lemma_done_sum(t, a + select, b);
        let mid = all_done(t, a);
        assert(select.drop_last() =~= Seq::<StepView>::empty());
        assert(all_done(mid, select.drop_last()) == mid);
        let selected = all_done(mid, select);
        assert(selected == (Tab { focus: slot, ..mid }));
        let part = row(direction, children, base, next, n, before, n);
        lemma_row_below(direction, children, base, next, before, n);
        lemma_grown_below(tree, base, part, next, free);
        assert(usable(children[before as int].1));
        lemma_steps_done(selected, children[before as int].1, slot, free);
        lemma_replace_twice(
            tree,
            base,
            part,
            slot,
            built(children[before as int].1, slot, free),
            next,
        );
        lemma_row_built(direction, children, base, next, before, n);
    }
}

/// A row of which `k` children are built uses no slot from that of the next ones
/// on.
proof fn lemma_row_below(
    direction: SplitDir,
    children: Seq<(u32, LayoutView)>,
    base: nat,
    next: nat,
    k: nat,
    n: nat,
)
    requires
        base < next,
        0 < n <= children.len(),
        k <= children.len(),
        all_usable(children),
    ensures
        below(
            row(direction, children, base, next, children.len(), k, n),
            next + (children.len() - 1) as nat + slots_of(children, k),
        ),
    decreases n,
{
    reveal_with_fuel(row, 2);
    reveal_with_fuel(below, 2);
    let i = (children.len() - n) as nat;
    let slot = child_slot(base, next, i);
    let free = next + (children.len() - 1) as nat + slots_of(children, i);
    if i < k {
        assert(usable(children[i as int].1));
        lemma_built_within(children[i as int].1, slot, free);
        let one = built(children[i as int].1, slot, free);
        lemma_within_below(one, slot, free, free + slots(children[i as int].1));
        lemma_slots_of_grow(children, i + 1, k);
        lemma_below_more(
            one,
            free + slots(children[i as int].1),
            next + (children.len() - 1) as nat + slots_of(children, k),
        );
    }
    if n > 1 {
        lemma_row_below(direction, children, base, next, k, (n - 1) as nat);
    }
}

proof fn lemma_below_more(tree: Arranged, n: nat, m: nat)
    requires
        below(tree, n),
        n <= m,
    ensures
        below(tree, m),
    decreases tree,
{
    if let Arranged::Pair(_, a, b) = tree {
        lemma_below_more(*a, n, m);
        lemma_below_more(*b, n, m);
    }
}

proof fn lemma_grown_below(tree: Arranged, base: nat, part: Arranged, n: nat, m: nat)
    requires
        below(tree, n),
        below(part, m),
        n <= m,
    ensures
        below(replaced(tree, base, part), m),
    decreases tree,
{
    if let Arranged::Pair(_, a, b) = tree {
        lemma_grown_below(*a, base, part, n, m);
        lemma_grown_below(*b, base, part, n, m);
    }
}

proof fn lemma_built_arranged(node: LayoutView, base: nat, next: nat)
    requires
        usable(node),
    ensures
        is_arranged(built(node, base, next), node),
    decreases node, 1int, 0nat,
{
    if let LayoutView::Split { direction, children } = node {
        assert(all_usable(children));
        lemma_row_arranged(direction, children, base, next, children.len());
    }
}

proof fn lemma_row_arranged(
    direction: SplitDir,
    children: Seq<(u32, LayoutView)>,
    base: nat,
    next: nat,
    n: nat,
)
    requires
        0 < n <= children.len(),
        all_usable(children),
    ensures
        is_row(
            row(direction, children, base, next, children.len(), children.len(), n),
            direction,
            children,
            n,
        ),
    decreases children, 0int, n,
{
    let i = (children.len() - n) as nat;
    assert(usable(children[i as int].1));
    lemma_built_arranged(
        children[i as int].1,
        child_slot(base, next, i),
        next + (children.len() - 1) as nat + slots_of(children, i),
    );
    if n > 1 {
        lemma_row_arranged(direction, children, base, next, (n - 1) as nat);
    }
}

/// A tab of one pane in which the steps of a rebuild are done stands as it was
/// saved: side by side what was, one below the other what was, in the saved order
/// and nesting.
pub proof fn law_a_rebuilt_tab_stands_as_it_was(node: LayoutView)
    requires
        usable(node),
    ensures
        is_arranged(
            all_done(Tab { tree: Arranged::Pane(0), focus: 0 }, steps_for(node, 0, 1)).tree,
            node,
        ),
{
    lemma_steps_done(Tab { tree: Arranged::Pane(0), focus: 0 }, node, 0, 1);
    lemma_built_arranged(node, 0, 1);
}

// ---------------------------------------------------------------------------
// What is painted where.

proof fn lemma_splits_paint_no_slot(
    direction: SplitDir,
    children: Seq<(u32, LayoutView)>,
    base: nat,
    next: nat,
    n: nat,
)
    ensures
        slots_painted(split_steps(direction, children, base, next, n)) == Seq::<nat>::empty(),
    decreases n,
{
    let steps = split_steps(direction, children, base, next, n);
    if n > 1 && n <= children.len() {
        lemma_splits_paint_no_slot(direction, children, base, next, (n - 1) as nat);
        assert(steps.drop_last() =~= split_steps(direction, children, base, next, (n - 1) as nat));
    }
}

proof fn lemma_painted_in_order(node: LayoutView, base: nat, next: nat)
    requires
        usable(node),
    ensures
        slots_painted(steps_for(node, base, next)) == slots_in(built(node, base, next)),
    decreases node, 1int, 0nat,
{
    match node {
        LayoutView::Leaf(pane) => {
            let steps = seq![StepView::Paint { slot: base, pane }];
            assert(steps_for(node, base, next) =~= steps);
            assert(steps.drop_last() =~= Seq::<StepView>::empty());
            assert(slots_painted(steps.drop_last()) =~= Seq::<nat>::empty());
            assert(slots_painted(steps) =~= seq![base]);
        },
        LayoutView::Split { direction, children } => {
            let n = children.len();
            let a = split_steps(direction, children, base, next, n);
            let b = child_steps(children, base, next, n);
            lemma_splits_paint_no_slot(direction, children, base, next, n);
            lemma_slots_painted_sum(a, b);
            assert(all_usable(children));
            lemma_children_in_order(direction, children, base, next, n, n);
            assert(slots_painted(a) + slots_painted(b) =~= slots_painted(b));
            assert(child_steps(children, base, next, 0) =~= Seq::<StepView>::empty());
            assert(slots_painted(child_steps(children, base, next, 0)) =~= Seq::<nat>::empty());
            assert(Seq::<nat>::empty() + slots_in(built(node, base, next)) =~= slots_in(
                built(node, base, next),
            ));
        },
    }
}

/// What the children from `children.len() - n` on paint comes behind what those
/// before them paint.
proof fn lemma_children_in_order(
    direction: SplitDir,
    children: Seq<(u32, LayoutView)>,
    base: nat,
    next: nat,
    k: nat,
    n: nat,
)
    requires
        0 < n <= children.len(),
        k == children.len(),
        all_usable(children),
    ensures
        slots_painted(child_steps(children, base, next, children.len())) == slots_painted(
            child_steps(children, base, next, (children.len() - n) as nat),
        ) + slots_in(row(direction, children, base, next, children.len(), children.len(), n)),
    decreases children, 0int, n,
{
    let i = (children.len() - n) as nat;
    let slot = child_slot(base, next, i);
    let free = next + (children.len() - 1) as nat + slots_of(children, i);
    let a = child_steps(children, base, next, i);
    let select = seq![StepView::Select { slot }];
    let b = steps_for(children[i as int].1, slot, free);
    assert(usable(children[i as int].1));
    lemma_painted_in_order(children[i as int].1, slot, free);
    lemma_slots_painted_sum(a, select);
    lemma_slots_painted_sum(a + select, b);
    assert(select.drop_last() =~= Seq::<StepView>::empty());
    assert(slots_painted(select.drop_last()) =~= Seq::<nat>::empty());
    assert(slots_painted(select) =~= Seq::<nat>::empty());
    assert(slots_painted(a) + slots_painted(select) =~= slots_painted(a));
    assert(child_steps(children, base, next, i + 1) == a + select + b);
    if n > 1 {
        lemma_children_in_order(direction, children, base, next, k, (n - 1) as nat);
        let rest = row(direction, children, base, next, k, k, (n - 1) as nat);
        assert((slots_painted(a) + slots_painted(b)) + slots_in(rest) =~= slots_painted(a) + (
        slots_painted(b) + slots_in(rest)));
    }
}

/// The panes are painted in the order in which they stand: since all saved panes
/// are painted in the order of the tree, each is painted in its own place.
pub proof fn law_each_pane_is_painted_in_its_place(node: LayoutView)
    requires
        usable(node),
    ensures
        slots_painted(steps_for(node, 0, 1)) == slots_in(
            all_done(Tab { tree: Arranged::Pane(0), focus: 0 }, steps_for(node, 0, 1)).tree,
        ),
{
    lemma_steps_done(Tab { tree: Arranged::Pane(0), focus: 0 }, node, 0, 1);
    lemma_painted_in_order(node, 0, 1);
}

/// The first pane of a tree is painted in its base slot.
proof fn lemma_first_painted(node: LayoutView, base: nat, next: nat)
    requires
        usable(node),
    ensures
        steps_for(node, base, next).contains(StepView::Paint { slot: base, pane: first_of(node) }),
    decreases node, 1int, 0nat,
{
    match node {
        LayoutView::Leaf(pane) => {
            assert(steps_for(node, base, next)[0] == (StepView::Paint { slot: base, pane }));
        },
        LayoutView::Split { direction, children } => {
            assert(usable(children[0].1));
            let free = next + (children.len() - 1) as nat + slots_of(children, 0);
            lemma_first_painted(children[0].1, base, free);
            let first = steps_for(children[0].1, base, free);
            lemma_child_contains(children, base, next, 0, children.len(), first_step(node, base));
            lemma_sum_contains(
                split_steps(direction, children, base, next, children.len()),
                child_steps(children, base, next, children.len()),
                first_step(node, base),
            );
        },
    }
}

spec fn first_step(node: LayoutView, base: nat) -> StepView {
    StepView::Paint { slot: base, pane: first_of(node) }
}

proof fn lemma_sum_contains(a: Seq<StepView>, b: Seq<StepView>, x: StepView)
    ensures
        (a + b).contains(x) <==> a.contains(x) || b.contains(x),
{
    if a.contains(x) {
        assert((a + b)[a.index_of(x)] == x);
    }
    if b.contains(x) {
        assert((a + b)[a.len() + b.index_of(x)] == x);
    }
    if (a + b).contains(x) {
        let i = (a + b).index_of(x);
        if i < a.len() {
            assert(a[i] == x);
        } else {
            assert(b[i - a.len()] == x);
        }
    }
}

proof fn lemma_child_contains(
    children: Seq<(u32, LayoutView)>,
    base: nat,
    next: nat,
    i: nat,
    k: nat,
    x: StepView,
)
    requires
        i < k <= children.len(),
        steps_for(
            children[i as int].1,
            child_slot(base, next, i),
            next + (children.len() - 1) as nat + slots_of(children, i),
        ).contains(x),
    ensures
        child_steps(children, base, next, k).contains(x),
    decreases k,
{
    let last = (k - 1) as nat;
    let slot = child_slot(base, next, last);
    let a = child_steps(children, base, next, last);
    let select = seq![StepView::Select { slot }];
    let b = steps_for(
        children[last as int].1,
        slot,
        next + (children.len() - 1) as nat + slots_of(children, last),
    );
    lemma_sum_contains(a, select, x);
    lemma_sum_contains(a + select, b, x);
    if i < last {
        lemma_child_contains(children, base, next, i, last, x);
    }
}

proof fn lemma_split_starts(
    direction: SplitDir,
    children: Seq<(u32, LayoutView)>,
    base: nat,
    next: nat,
    n: nat,
    x: StepView,
)
    requires
        n <= children.len(),
        split_steps(direction, children, base, next, n).contains(x),
    ensures
        exists|i: int|
            1 <= i < n && x == (StepView::Split {
                base,
                slot: child_slot(base, next, i as nat),
                direction,
                pane: first_of((#[trigger] children[i]).1),
            }),
    decreases n,
{
    let steps = split_steps(direction, children, base, next, n);
    if n > 1 {
        let before = split_steps(direction, children, base, next, (n - 1) as nat);
        let j = steps.index_of(x);
        if j < before.len() {
            assert(before[j] == x);
            lemma_split_starts(direction, children, base, next, (n - 1) as nat, x);
        } else {
            assert(x == steps.last());
            assert(children[n - 1] == children[n - 1]);
        }
    }
}

proof fn lemma_started_is_painted(node: LayoutView, base: nat, next: nat, x: StepView)
    requires
        usable(node),
        steps_for(node, base, next).contains(x),
        x is Split,
    ensures
        steps_for(node, base, next).contains(
            StepView::Paint { slot: x->Split_slot, pane: x->Split_pane },
        ),
    decreases node, 1int, 0nat,
{
    match node {
        LayoutView::Leaf(pane) => {
            let steps = steps_for(node, base, next);
            let i = steps.index_of(x);
            assert(steps[i] is Paint);
        },
        LayoutView::Split { direction, children } => {
            let n = children.len();
            let a = split_steps(direction, children, base, next, n);
            let b = child_steps(children, base, next, n);
            let y = StepView::Paint { slot: x->Split_slot, pane: x->Split_pane };
            lemma_sum_contains(a, b, x);
            lemma_sum_contains(a, b, y);
            if a.contains(x) {
                lemma_split_starts(direction, children, base, next, n, x);
                let i = choose|i: int|
                    1 <= i < n && x == (StepView::Split {
                        base,
                        slot: child_slot(base, next, i as nat),
                        direction,
                        pane: first_of((#[trigger] children[i]).1),
                    });
                assert(usable(children[i].1));
                lemma_first_painted(
                    children[i].1,
                    child_slot(base, next, i as nat),
                    next + (n - 1) as nat + slots_of(children, i as nat),
                );
                lemma_child_contains(children, base, next, i as nat, n, y);
            } else {
                assert(all_usable(children));
                lemma_child_started(children, base, next, n, x);
            }
        },
    }
}

proof fn lemma_child_started(
    children: Seq<(u32, LayoutView)>,
    base: nat,
    next: nat,
    k: nat,
    x: StepView,
)
    requires
        k <= children.len(),
        all_usable(children),
        child_steps(children, base, next, k).contains(x),
        x is Split,
    ensures
        child_steps(children, base, next, k).contains(
            StepView::Paint { slot: x->Split_slot, pane: x->Split_pane },
        ),
    decreases children, 0int, k,
{
    if k > 0 {
        let last = (k - 1) as nat;
        let slot = child_slot(base, next, last);
        let free = next + (children.len() - 1) as nat + slots_of(children, last);
        let a = child_steps(children, base, next, last);
        let select = seq![StepView::Select { slot }];
        let b = steps_for(children[last as int].1, slot, free);
        let y = StepView::Paint { slot: x->Split_slot, pane: x->Split_pane };
        lemma_sum_contains(a, select, x);
        lemma_sum_contains(a + select, b, x);
        lemma_sum_contains(a, select, y);
        lemma_sum_contains(a + select, b, y);
        if a.contains(x) {
            lemma_child_started(children, base, next, last, x);
        } else {
            assert(!select.contains(x)) by {
                if select.contains(x) {
                    assert(select[select.index_of(x)] is Select);
                }
            }
            assert(usable(children[last as int].1));
            lemma_started_is_painted(children[last as int].1, slot, free, x);
        }
    }
}

/// A pane is painted with what was saved of the one that was started for it: that
/// of a split where it was started for the split, the first one of the tree where
/// the tab began.
pub proof fn law_a_pane_is_painted_as_it_was_started(node: LayoutView, step: StepView)
    requires
        usable(node),
    ensures
        steps_for(node, 0, 1).contains(StepView::Paint { slot: 0, pane: first_of(node) }),
        steps_for(node, 0, 1).contains(step) && step is Split ==> steps_for(node, 0, 1).contains(
            StepView::Paint { slot: step->Split_slot, pane: step->Split_pane },
        ),
{
    lemma_first_painted(node, 0, 1);
    if steps_for(node, 0, 1).contains(step) && step is Split {
        lemma_started_is_painted(node, 0, 1, step);
    }
}

/// Whether a step paints the active pane into a slot that was built.
pub open spec fn paints_active(step: StepView, built: Seq<bool>) -> bool {
    &&& step is Paint
    &&& step->Paint_pane.is_active
    &&& step->Paint_slot < built.len()
    &&& built[step->Paint_slot as int]
}

/// The keyboard goes to the pane that had it, once that is built: the last one
/// where several had it, and to none where none did.
pub proof fn law_the_active_pane_gets_the_keyboard(steps: Seq<StepView>, built: Seq<bool>)
    ensures
        active_slot_of(steps, built) is None <==> forall|i: int|
            0 <= i < steps.len() ==> !paints_active(#[trigger] steps[i], built),
        active_slot_of(steps, built) is Some ==> exists|i: int|
            0 <= i < steps.len() && paints_active(#[trigger] steps[i], built) && steps[i]->Paint_slot
                == active_slot_of(steps, built)->0 && forall|j: int|
                i < j < steps.len() ==> !paints_active(#[trigger] steps[j], built),
    decreases steps.len(),
{
    if steps.len() > 0 {
        let init = steps.drop_last();
        let n = steps.len() - 1;
        law_the_active_pane_gets_the_keyboard(init, built);
        assert(steps[n] == steps.last());
        if paints_active(steps.last(), built) {
            assert(paints_active(steps[n], built));
        } else if active_slot_of(init, built) is Some {
            let i = choose|i: int|
                0 <= i < init.len() && paints_active(#[trigger] init[i], built) && init[i]->Paint_slot
                    == active_slot_of(init, built)->0 && forall|j: int|
                    i < j < init.len() ==> !paints_active(#[trigger] init[j], built);
            assert(steps[i] == init[i]);
            assert forall|j: int| i < j < steps.len() implies !paints_active(
                #[trigger] steps[j],
                built,
            ) by {
                if j < init.len() {
                    assert(steps[j] == init[j]);
                }
            }
        } else {
            assert forall|i: int| 0 <= i < steps.len() implies !paints_active(
                #[trigger] steps[i],
                built,
            ) by {
                if i < init.len() {
                    assert(steps[i] == init[i]);
                }
            }
        }
    }
}

/// A step is done where the pane it stands on was built, and only there.
pub proof fn law_a_step_needs_its_pane(step: &Step<'_>, built: &Vec<bool>, due: bool)
    requires
        call_ensures(step_is_due, (step, built), due),
    ensures
        step is Select ==> (due <==> step->Select_slot < built@.len()
            && built@[step->Select_slot as int]),
        step is Split ==> (due <==> step->base < built@.len() && built@[step->base as int]),
        step is Paint ==> (due <==> step->Paint_slot < built@.len()
            && built@[step->Paint_slot as int]),
{
}

} // verus!
