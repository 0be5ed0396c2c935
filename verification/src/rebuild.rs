//! Rebuilding the splits of a saved tab. The panes come into being one by one,
//! and any of them may fail to: the steps say what each stands on.
use crate::session::{
    first_of, leaves, leaves_of, usable, LayoutNode, LayoutView, PaneState, PaneView, SplitDir,
};
use vstd::prelude::*;

verus! {

/// A step of a rebuild. Slots stand for panes: slot 0 is there from the start,
/// each split makes the pane of one more slot or fails to.
#[derive(Debug)]
pub enum Step<'a> {
    /// Gives the keyboard to a slot's pane.
    Select { slot: usize },
    /// Splits the pane that has the keyboard; the new one has it then. `base` is
    /// the slot whose subtree is rebuilt.
    Split { base: usize, slot: usize, direction: SplitDir, pane: &'a PaneState },
    /// Paints what was saved into a slot's pane, and notes whether it was the
    /// active one.
    Paint { slot: usize, pane: &'a PaneState },
}

/// The mathematical value of a [`Step`].
#[verifier::ext_equal]
pub enum StepView {
    Select { slot: nat },
    Split { base: nat, slot: nat, direction: SplitDir, pane: PaneView },
    Paint { slot: nat, pane: PaneView },
}

impl<'a> View for Step<'a> {
    type V = StepView;

    open spec fn view(&self) -> StepView {
        match self {
            Step::Select { slot } => StepView::Select { slot: *slot as nat },
            Step::Split { base, slot, direction, pane } => StepView::Split {
                base: *base as nat,
                slot: *slot as nat,
                direction: *direction,
                pane: pane@,
            },
            Step::Paint { slot, pane } => StepView::Paint { slot: *slot as nat, pane: pane@ },
        }
    }
}

pub open spec fn step_views(steps: Seq<Step<'_>>) -> Seq<StepView> {
    Seq::new(steps.len(), |i: int| steps[i]@)
}

/// The splits for the children of a split but its first: one for each, the
/// slots numbered on from `next`. The first child takes the base slot.
pub open spec fn split_steps(
    direction: SplitDir,
    children: Seq<(u32, LayoutView)>,
    base: nat,
    next: nat,
    n: nat,
) -> Seq<StepView>
    decreases n,
{
    if n <= 1 || n > children.len() {
        Seq::empty()
    } else {
        split_steps(direction, children, base, next, (n - 1) as nat).push(
            StepView::Split {
                base,
                slot: (next + n - 2) as nat,
                direction,
                pane: first_of(children[n - 1].1),
            },
        )
    }
}

/// How many slots a tree takes besides its base: one for each child of a split
/// but the first.
pub open spec fn slots(node: LayoutView) -> nat
    decreases node, 1int, 0nat,
{
    match node {
        LayoutView::Leaf(_) => 0,
        LayoutView::Split { children, .. } => (if children.len() > 0 {
            (children.len() - 1) as nat
        } else {
            0
        }) + slots_of(children, children.len()),
    }
}

/// How many slots the first `n` children take besides their own.
pub open spec fn slots_of(children: Seq<(u32, LayoutView)>, n: nat) -> nat
    decreases children, 0int, n,
{
    if n == 0 || n > children.len() {
        0
    } else {
        slots_of(children, (n - 1) as nat) + slots(children[n - 1].1)
    }
}

/// The steps that rebuild a tree in a slot.
pub open spec fn steps_for(node: LayoutView, base: nat, next: nat) -> Seq<StepView>
    decreases node, 1int, 0nat,
{
    match node {
        LayoutView::Leaf(pane) => seq![StepView::Paint { slot: base, pane }],
        LayoutView::Split { direction, children } => split_steps(
            direction,
            children,
            base,
            next,
            children.len(),
        ) + child_steps(children, base, next, children.len()),
    }
}

/// The steps that rebuild the first `n` children in their slots.
pub open spec fn child_steps(
    children: Seq<(u32, LayoutView)>,
    base: nat,
    next: nat,
    n: nat,
) -> Seq<StepView>
    decreases children, 0int, n,
{
    if n == 0 || n > children.len() {
        Seq::empty()
    } else {
        let slot = child_slot(base, next, (n - 1) as nat);
        child_steps(children, base, next, (n - 1) as nat) + seq![StepView::Select { slot }]
            + steps_for(
            children[n - 1].1,
            slot,
            next + (children.len() - 1) as nat + slots_of(children, (n - 1) as nat),
        )
    }
}

/// The slot of a child.
pub open spec fn child_slot(base: nat, next: nat, i: nat) -> nat {
    if i == 0 {
        base
    } else {
        (next + i - 1) as nat
    }
}

/// Appends the steps that rebuild a tree in a slot. Returns the next free slot,
/// or none where they ran out.
fn push_steps<'a>(node: &'a LayoutNode, base: usize, next: usize, out: &mut Vec<Step<'a>>) -> (free:
    Option<usize>)
    requires
        usable(node@),
    ensures
        match free {
            Some(f) => f == next + slots(node@) && step_views(final(out)@) == step_views(old(out)@)
                + steps_for(node@, base as nat, next as nat),
            None => next + slots(node@) > usize::MAX,
        },
    decreases *node,
{
    match node {
        LayoutNode::Leaf(pane) => {
            out.push(Step::Paint { slot: base, pane });
            assert(step_views(out@) =~= step_views(old(out)@) + steps_for(
                node@,
                base as nat,
                next as nat,
            ));
            Some(next)
        },
        LayoutNode::Split { direction, children } => {
            let ghost kids = node@->children;
            let ghost start = step_views(out@);
            let count: usize = children.len();
            assert(count == kids.len());
            if count - 1 > usize::MAX - next {
                return None;
            }
            let mut i: usize = 1;
            assert(start + split_steps(*direction, kids, base as nat, next as nat, 1) =~= start);
            while i < count
                invariant
                    1 <= i <= count,
                    count == children@.len(),
                    *node matches LayoutNode::Split { direction: d, children: c } && c == *children
                        && d == *direction,
                    kids == node@->children,
                    kids.len() == count,
                    usable(node@),
                    node@ is Split,
                    next + count - 1 <= usize::MAX,
                    step_views(out@) == start + split_steps(
                        *direction,
                        kids,
                        base as nat,
                        next as nat,
                        i as nat,
                    ),
                decreases count - i,
            {
                let child = &children[i];
                assert(kids[i as int] == (child.0, child.1@));
                assert(usable(kids[i as int].1));
                let ghost before = step_views(out@);
                let slot: usize = next + (i - 1);
                let step = Step::Split {
                    base,
                    slot,
                    direction: *direction,
                    pane: child.1.first_leaf(),
                };
                out.push(step);
                assert(step_views(out@) =~= before.push(step@));
                i = i + 1;
                assert(step_views(out@) =~= start + split_steps(
                    *direction,
                    kids,
                    base as nat,
                    next as nat,
                    i as nat,
                ));
            }
            let ghost split = step_views(out@);
            let first_free: usize = next + (count - 1);
            let mut free: usize = first_free;
            let mut k: usize = 0;
            assert(split + child_steps(kids, base as nat, next as nat, 0) =~= split);
            while k < count
                invariant
                    k <= count,
                    count == children@.len(),
                    *node matches LayoutNode::Split { children: c, .. } && c == *children,
                    kids == node@->children,
                    kids.len() == count,
                    usable(node@),
                    node@ is Split,
                    next + count - 1 <= usize::MAX,
                    first_free == next + count - 1,
                    free == first_free + slots_of(kids, k as nat),
                    step_views(out@) == split + child_steps(
                        kids,
                        base as nat,
                        next as nat,
                        k as nat,
                    ),
                decreases count - k,
            {
                let child = &children[k];
                assert(kids[k as int] == (child.0, child.1@));
                assert(usable(kids[k as int].1));
                let ghost before = step_views(out@);
                let slot: usize = if k == 0 {
                    base
                } else {
                    next + (k - 1)
                };
                out.push(Step::Select { slot });
                let ghost selected = step_views(out@);
                assert(selected =~= before + seq![StepView::Select { slot: slot as nat }]);
                match push_steps(&child.1, slot, free, out) {
                    Some(f) => {
                        free = f;
                    },
                    None => {
                        proof {
                            lemma_slots_grow(kids, (k + 1) as nat, count as nat);
                        }
                        return None;
                    },
                }
                k = k + 1;
                assert(step_views(out@) =~= split + child_steps(
                    kids,
                    base as nat,
                    next as nat,
                    k as nat,
                ));
            }
            assert(step_views(out@) =~= step_views(old(out)@) + steps_for(
                node@,
                base as nat,
                next as nat,
            ));
            Some(free)
        },
    }
}

proof fn lemma_slots_grow(children: Seq<(u32, LayoutView)>, a: nat, b: nat)
    requires
        a <= b <= children.len(),
    ensures
        slots_of(children, a) <= slots_of(children, b),
    decreases b - a,
{
    if a < b {
        lemma_slots_grow(children, a, (b - 1) as nat);
    }
}

/// The steps that rebuild a saved tab. The tab has one pane already: that of
/// slot 0, started for the first pane of the tree. None where there are more
/// panes than can be numbered.
pub fn rebuild_steps<'a>(layout: &'a LayoutNode) -> (steps: Option<Vec<Step<'a>>>)
    requires
        usable(layout@),
    ensures
        match steps {
            Some(s) => step_views(s@) == steps_for(layout@, 0, 1) && 1 + slots(layout@)
                <= usize::MAX,
            None => 1 + slots(layout@) > usize::MAX,
        },
{
    let mut out: Vec<Step<'a>> = Vec::new();
    assert(step_views(out@) =~= Seq::<StepView>::empty());
    match push_steps(layout, 0, 1, &mut out) {
        Some(_) => {
            assert(step_views(out@) =~= steps_for(layout@, 0, 1));
            Some(out)
        },
        None => None,
    }
}

/// Whether a step is to be done: not where the pane it stands on did not come
/// into being. `built` holds for each slot whether its pane did.
pub open spec fn is_due(step: StepView, built: Seq<bool>) -> bool {
    let slot = match step {
        StepView::Select { slot } => slot,
        StepView::Split { base, .. } => base,
        StepView::Paint { slot, .. } => slot,
    };
    slot < built.len() && built[slot as int]
}

pub fn step_is_due(step: &Step<'_>, built: &Vec<bool>) -> (due: bool)
    ensures
        due == is_due(step@, built@),
{
    let slot: usize = match step {
        Step::Select { slot } => *slot,
        Step::Split { base, .. } => *base,
        Step::Paint { slot, .. } => *slot,
    };
    slot < built.len() && built[slot]
}

/// The slot that gets the keyboard in the end: that of the last pane that was
/// built and was the active one.
pub open spec fn active_slot_of(steps: Seq<StepView>, built: Seq<bool>) -> Option<nat>
    decreases steps.len(),
{
    if steps.len() == 0 {
        None
    } else {
        match steps.last() {
            StepView::Paint { slot, pane } => if pane.is_active && is_due(steps.last(), built) {
                Some(slot)
            } else {
                active_slot_of(steps.drop_last(), built)
            },
            _ => active_slot_of(steps.drop_last(), built),
        }
    }
}

pub fn active_slot(steps: &Vec<Step<'_>>, built: &Vec<bool>) -> (slot: Option<usize>)
    ensures
        match active_slot_of(step_views(steps@), built@) {
            Some(s) => slot matches Some(found) && found == s,
            None => slot is None,
        },
{
    let ghost all = step_views(steps@);
    let mut i: usize = steps.len();
    assert(all.take(i as int) =~= all);
    while i > 0
        invariant
            i <= steps@.len(),
            all == step_views(steps@),
            active_slot_of(all, built@) == active_slot_of(all.take(i as int), built@),
        decreases i,
    {
        let step = &steps[i - 1];
        assert(all.take(i as int).last() == step@);
        assert(all.take(i as int).drop_last() =~= all.take(i - 1));
        if let Step::Paint { slot, pane } = step {
            if pane.is_active && step_is_due(step, built) {
                return Some(*slot);
            }
        }
        i = i - 1;
    }
    None
}

/// The panes that steps paint.
pub open spec fn painted(steps: Seq<StepView>) -> Seq<PaneView>
    decreases steps.len(),
{
    if steps.len() == 0 {
        Seq::empty()
    } else {
        let before = painted(steps.drop_last());
        match steps.last() {
            StepView::Paint { pane, .. } => before.push(pane),
            _ => before,
        }
    }
}

proof fn lemma_painted_sum(a: Seq<StepView>, b: Seq<StepView>)
    ensures
        painted(a + b) == painted(a) + painted(b),
    decreases b.len(),
{
    if b.len() == 0 {
        assert(a + b =~= a);
        assert(painted(a) + painted(b) =~= painted(a));
    } else {
        lemma_painted_sum(a, b.drop_last());
        assert((a + b).drop_last() =~= a + b.drop_last());
        assert(painted(a + b) =~= painted(a) + painted(b));
    }
}

proof fn lemma_splits_paint_nothing(
    direction: SplitDir,
    children: Seq<(u32, LayoutView)>,
    base: nat,
    next: nat,
    n: nat,
)
    ensures
        painted(split_steps(direction, children, base, next, n)) == Seq::<PaneView>::empty(),
    decreases n,
{
    let steps = split_steps(direction, children, base, next, n);
    if n > 1 && n <= children.len() {
        lemma_splits_paint_nothing(direction, children, base, next, (n - 1) as nat);
        assert(steps.drop_last() =~= split_steps(
            direction,
            children,
            base,
            next,
            (n - 1) as nat,
        ));
    }
}

/// A rebuild paints every saved pane, once and in the order of the tree.
pub proof fn law_rebuild_paints_every_pane(node: LayoutView, base: nat, next: nat)
    ensures
        painted(steps_for(node, base, next)) == leaves(node),
    decreases node, 1int, 0nat,
{
    match node {
        LayoutView::Leaf(pane) => {
            let steps = seq![StepView::Paint { slot: base, pane }];
            assert(steps_for(node, base, next) =~= steps);
            assert(steps.drop_last() =~= Seq::<StepView>::empty());
            assert(painted(steps.drop_last()) =~= Seq::<PaneView>::empty());
            assert(painted(steps) =~= leaves(node));
        },
        LayoutView::Split { direction, children } => {
            let a = split_steps(direction, children, base, next, children.len());
            let b = child_steps(children, base, next, children.len());
            lemma_painted_sum(a, b);
            lemma_splits_paint_nothing(direction, children, base, next, children.len());
            lemma_children_painted(children, base, next, children.len());
            assert(painted(a) + painted(b) =~= painted(b));
        },
    }
}

proof fn lemma_children_painted(
    children: Seq<(u32, LayoutView)>,
    base: nat,
    next: nat,
    n: nat,
)
    requires
        n <= children.len(),
    ensures
        painted(child_steps(children, base, next, n)) == leaves_of(children, n),
    decreases children, 0int, n,
{
    if n > 0 {
        let slot = child_slot(base, next, (n - 1) as nat);
        let free = next + (children.len() - 1) as nat + slots_of(children, (n - 1) as nat);
        let a = child_steps(children, base, next, (n - 1) as nat);
        let select = seq![StepView::Select { slot }];
        let b = steps_for(children[n - 1].1, slot, free);
        lemma_children_painted(children, base, next, (n - 1) as nat);
        law_rebuild_paints_every_pane(children[n - 1].1, slot, free);
        assert(select.drop_last() =~= Seq::<StepView>::empty());
        assert(painted(select.drop_last()) =~= Seq::<PaneView>::empty());
        assert(painted(select) =~= Seq::<PaneView>::empty());
        lemma_painted_sum(a, select);
        lemma_painted_sum(a + select, b);
        assert(painted(a) + painted(select) =~= painted(a));
    } else {
        assert(child_steps(children, base, next, n) =~= Seq::<StepView>::empty());
    }
}

} // verus!
