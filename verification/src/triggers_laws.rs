//! Laws on rules over many looks at a terminal.
use crate::matching::MatchView;
use crate::triggers::{
    added, fired_for, hits_with, is_cursor_line, lines_due, lines_fired, noted, prepared, reflowed,
    rule_fired, rules_fired, scanned, scanned_text, RouteView, RuleView, ScreenView,
};
use vstd::prelude::*;

verus! {

/// How many actions of a rule come of a line.
pub open spec fn line_acts(
    r: RouteView,
    rules: Seq<RuleView>,
    s: ScreenView,
    line: int,
    hashes: Map<(int, int), Seq<u64>>,
    k: int,
) -> nat {
    rule_fired(
        rules_fired(r, rules, k as nat, s, line, hashes).0,
        rules[k],
        is_cursor_line(s, line),
        hits_with(rules[k], scanned_text(s.lines[line]), hashes[(line, k)]),
        s.feed,
    ).1.len()
}

/// How many actions of a rule come of the first `n` lines.
pub open spec fn lines_acts(
    r: RouteView,
    rules: Seq<RuleView>,
    s: ScreenView,
    due: Seq<bool>,
    n: nat,
    hashes: Map<(int, int), Seq<u64>>,
    k: int,
) -> nat
    decreases n,
{
    if n == 0 {
        0
    } else {
        let above = (n - 1) as nat;
        lines_acts(r, rules, s, due, above, hashes, k) + if due[n - 1] {
            line_acts(lines_fired(r, rules, s, due, above, hashes).0, rules, s, n - 1, hashes, k)
        } else {
            0
        }
    }
}

/// A look at a screen, with the hashes of its lines and of what matched.
pub struct Look {
    pub screen: ScreenView,
    pub line_hashes: Seq<u64>,
    pub match_hashes: Map<(int, int), Seq<u64>>,
}

/// What is remembered after a look, and what is done.
pub open spec fn looked(rules: Seq<RuleView>, r: RouteView, look: Look) -> (RouteView, nat) {
    let (after, actions) = scanned(
        rules,
        r,
        look.screen,
        look.line_hashes,
        look.match_hashes,
    );
    (after, actions.len())
}

/// How many actions of a rule come of a look.
pub open spec fn look_acts(rules: Seq<RuleView>, r: RouteView, look: Look, k: int) -> nat {
    let s = look.screen;
    if rules.len() == 0 || !s.changed {
        0
    } else {
        lines_acts(
            noted(r, s, look.line_hashes),
            rules,
            s,
            lines_due(prepared(r, s).seen, reflowed(r, s), s, look.line_hashes),
            s.lines.len(),
            look.match_hashes,
            k,
        )
    }
}

/// How many actions of the first `n` rules come of a look.
pub open spec fn acts_together(rules: Seq<RuleView>, r: RouteView, look: Look, n: nat) -> nat
    decreases n,
{
    if n == 0 {
        0
    } else {
        acts_together(rules, r, look, (n - 1) as nat) + look_acts(rules, r, look, n - 1)
    }
}

/// What is remembered of a terminal after looks, one after the other.
pub open spec fn after_looks(rules: Seq<RuleView>, r: RouteView, looks: Seq<Look>) -> RouteView
    decreases looks.len(),
{
    if looks.len() == 0 {
        r
    } else {
        looked(rules, after_looks(rules, r, looks.drop_last()), looks.last()).0
    }
}

/// How many actions of a rule come of looks, one after the other.
pub open spec fn acts_over(
    rules: Seq<RuleView>,
    r: RouteView,
    looks: Seq<Look>,
    k: int,
) -> nat
    decreases looks.len(),
{
    if looks.len() == 0 {
        0
    } else {
        acts_over(rules, r, looks.drop_last(), k) + look_acts(
            rules,
            after_looks(rules, r, looks.drop_last()),
            looks.last(),
            k,
        )
    }
}

// ---------------------------------------------------------------------------
// One look.

/// Whether all that fired once still counts as such.
spec fn keeps_once(before: RouteView, after: RouteView) -> bool {
    forall|id: u64| before.once.contains(id) ==> #[trigger] after.once.contains(id)
}

proof fn lemma_added_contains(s: Seq<u64>, x: u64)
    ensures
        added(s, x).contains(x),
        forall|y: u64| s.contains(y) ==> #[trigger] added(s, x).contains(y),
{
    if !s.contains(x) {
        assert(s.push(x).last() == x);
        assert forall|y: u64| s.contains(y) implies #[trigger] added(s, x).contains(y) by {
            assert(s.push(x)[s.index_of(y)] == y);
        }
    }
}

proof fn lemma_single(
    fired: Seq<(u64, u64)>,
    rule: RuleView,
    on_cursor: bool,
    hits: Seq<(MatchView, u64)>,
    feed: Seq<Seq<char>>,
)
    requires
        rule.once,
    ensures
        fired_for(fired, rule, on_cursor, hits, feed).1.len() <= 1,
    decreases hits.len(),
{
    if hits.len() > 0 {
        lemma_single(fired, rule, on_cursor, hits.skip(1), feed);
    }
}

proof fn lemma_rule_once(
    r: RouteView,
    rule: RuleView,
    on_cursor: bool,
    hits: Seq<(MatchView, u64)>,
    feed: Seq<Seq<char>>,
)
    ensures
        keeps_once(r, rule_fired(r, rule, on_cursor, hits, feed).0),
        rule.once ==> ({
            let (after, actions) = rule_fired(r, rule, on_cursor, hits, feed);
            &&& actions.len() <= 1
            &&& actions.len() > 0 ==> !r.once.contains(rule.id) && after.once.contains(rule.id)
        }),
{
    lemma_added_contains(r.once, rule.id);
    if rule.once {
        lemma_single(r.fired, rule, on_cursor, hits, feed);
    }
}

proof fn lemma_rules_once(
    r: RouteView,
    rules: Seq<RuleView>,
    n: nat,
    s: ScreenView,
    line: int,
    hashes: Map<(int, int), Seq<u64>>,
    k: int,
)
    requires
        0 <= k < rules.len(),
        n <= rules.len(),
        rules[k].once,
    ensures
        keeps_once(r, rules_fired(r, rules, n, s, line, hashes).0),
        line_acts(r, rules, s, line, hashes, k) <= 1,
        line_acts(r, rules, s, line, hashes, k) > 0 ==> !r.once.contains(rules[k].id),
        k < n && line_acts(r, rules, s, line, hashes, k) > 0 ==> rules_fired(
            r,
            rules,
            n,
            s,
            line,
            hashes,
        ).0.once.contains(rules[k].id),
    decreases n,
{
    let hits = hits_with(rules[k], scanned_text(s.lines[line]), hashes[(line, k)]);
    let at_k = rules_fired(r, rules, k as nat, s, line, hashes).0;
    lemma_rule_once(at_k, rules[k], is_cursor_line(s, line), hits, s.feed);
    if k < n {
        lemma_rules_once(r, rules, k as nat, s, line, hashes, k);
    } else {
        lemma_rules_keep(r, rules, k as nat, s, line, hashes);
    }
    if n > 0 {
        lemma_rules_once(r, rules, (n - 1) as nat, s, line, hashes, k);
        let before = rules_fired(r, rules, (n - 1) as nat, s, line, hashes).0;
        lemma_rule_once(
            before,
            rules[n - 1],
            is_cursor_line(s, line),
            hits_with(rules[n - 1], scanned_text(s.lines[line]), hashes[(line, n - 1)]),
            s.feed,
        );
    }
}

proof fn lemma_rules_keep(
    r: RouteView,
    rules: Seq<RuleView>,
    n: nat,
    s: ScreenView,
    line: int,
    hashes: Map<(int, int), Seq<u64>>,
)
    ensures
        keeps_once(r, rules_fired(r, rules, n, s, line, hashes).0),
    decreases n,
{
    if n > 0 {
        lemma_rules_keep(r, rules, (n - 1) as nat, s, line, hashes);
        let before = rules_fired(r, rules, (n - 1) as nat, s, line, hashes).0;
        lemma_rule_once(
            before,
            rules[n - 1],
            is_cursor_line(s, line),
            hits_with(rules[n - 1], scanned_text(s.lines[line]), hashes[(line, n - 1)]),
            s.feed,
        );
    }
}

proof fn lemma_lines_once(
    r: RouteView,
    rules: Seq<RuleView>,
    s: ScreenView,
    due: Seq<bool>,
    n: nat,
    hashes: Map<(int, int), Seq<u64>>,
    k: int,
)
    requires
        0 <= k < rules.len(),
        rules[k].once,
    ensures
        keeps_once(r, lines_fired(r, rules, s, due, n, hashes).0),
        lines_acts(r, rules, s, due, n, hashes, k) <= 1,
        lines_acts(r, rules, s, due, n, hashes, k) > 0 ==> !r.once.contains(rules[k].id)
            && lines_fired(r, rules, s, due, n, hashes).0.once.contains(rules[k].id),
    decreases n,
{
    if n > 0 {
        let above = (n - 1) as nat;
        lemma_lines_once(r, rules, s, due, above, hashes, k);
        let before = lines_fired(r, rules, s, due, above, hashes).0;
        lemma_rules_once(before, rules, rules.len(), s, n - 1, hashes, k);
    }
}

proof fn lemma_look_once(rules: Seq<RuleView>, r: RouteView, look: Look, k: int)
    requires
        0 <= k < rules.len(),
        rules[k].once,
    ensures
        keeps_once(r, looked(rules, r, look).0),
        look_acts(rules, r, look, k) <= 1,
        look_acts(rules, r, look, k) > 0 ==> !r.once.contains(rules[k].id) && looked(
            rules,
            r,
            look,
        ).0.once.contains(rules[k].id),
{
    let s = look.screen;
    lemma_lines_once(
        noted(r, s, look.line_hashes),
        rules,
        s,
        lines_due(prepared(r, s).seen, reflowed(r, s), s, look.line_hashes),
        s.lines.len(),
        look.match_hashes,
        k,
    );
}

// ---------------------------------------------------------------------------
// Laws.

/// Over any run of looks at a terminal a rule that fires once acts at most once,
/// however often it matches on a line, on several lines or in several looks, and
/// not at all where it did before.
pub proof fn law_once_over_all_looks(
    rules: Seq<RuleView>,
    r: RouteView,
    looks: Seq<Look>,
    k: int,
)
    requires
        0 <= k < rules.len(),
        rules[k].once,
    ensures
        acts_over(rules, r, looks, k) <= 1,
        r.once.contains(rules[k].id) ==> acts_over(rules, r, looks, k) == 0,
{
    lemma_once_over(rules, r, looks, k);
}

proof fn lemma_once_over(rules: Seq<RuleView>, r: RouteView, looks: Seq<Look>, k: int)
    requires
        0 <= k < rules.len(),
        rules[k].once,
    ensures
        keeps_once(r, after_looks(rules, r, looks)),
        acts_over(rules, r, looks, k) <= 1,
        acts_over(rules, r, looks, k) > 0 ==> !r.once.contains(rules[k].id) && after_looks(
            rules,
            r,
            looks,
        ).once.contains(rules[k].id),
    decreases looks.len(),
{
    if looks.len() > 0 {
        let earlier = looks.drop_last();
        lemma_once_over(rules, r, earlier, k);
        lemma_look_once(rules, after_looks(rules, r, earlier), looks.last(), k);
    }
}

/// Every action of a look is that of one rule: those of all rules are as many as
/// are done.
pub proof fn law_every_action_is_a_rules(rules: Seq<RuleView>, r: RouteView, look: Look)
    ensures
        acts_together(rules, r, look, rules.len()) == looked(rules, r, look).1,
{
    let s = look.screen;
    if rules.len() == 0 || !s.changed {
        lemma_none_together(rules, r, look, rules.len());
    } else {
        let due = lines_due(prepared(r, s).seen, reflowed(r, s), s, look.line_hashes);
        let start = noted(r, s, look.line_hashes);
        lemma_same_sum(rules, r, look, rules.len());
        lemma_lines_sum(start, rules, s, due, s.lines.len(), look.match_hashes);
    }
}

proof fn lemma_none_together(rules: Seq<RuleView>, r: RouteView, look: Look, n: nat)
    requires
        rules.len() == 0 || !look.screen.changed,
    ensures
        acts_together(rules, r, look, n) == 0,
    decreases n,
{
    if n > 0 {
        lemma_none_together(rules, r, look, (n - 1) as nat);
    }
}

/// The actions of the first `m` rules on the first `n` lines.
spec fn lines_sum(
    r: RouteView,
    rules: Seq<RuleView>,
    s: ScreenView,
    due: Seq<bool>,
    n: nat,
    hashes: Map<(int, int), Seq<u64>>,
    m: nat,
) -> nat
    decreases m,
{
    if m == 0 {
        0
    } else {
        lines_sum(r, rules, s, due, n, hashes, (m - 1) as nat) + lines_acts(
            r,
            rules,
            s,
            due,
            n,
            hashes,
            m - 1,
        )
    }
}

/// The actions of the first `m` rules on a line.
spec fn line_sum(
    r: RouteView,
    rules: Seq<RuleView>,
    s: ScreenView,
    line: int,
    hashes: Map<(int, int), Seq<u64>>,
    m: nat,
) -> nat
    decreases m,
{
    if m == 0 {
        0
    } else {
        line_sum(r, rules, s, line, hashes, (m - 1) as nat) + line_acts(
            r,
            rules,
            s,
            line,
            hashes,
            m - 1,
        )
    }
}

proof fn lemma_same_sum(rules: Seq<RuleView>, r: RouteView, look: Look, m: nat)
    requires
        rules.len() > 0,
        look.screen.changed,
    ensures
        acts_together(rules, r, look, m) == lines_sum(
            noted(r, look.screen, look.line_hashes),
            rules,
            look.screen,
            lines_due(
                prepared(r, look.screen).seen,
                reflowed(r, look.screen),
                look.screen,
                look.line_hashes,
            ),
            look.screen.lines.len(),
            look.match_hashes,
            m,
        ),
    decreases m,
{
    if m > 0 {
        lemma_same_sum(rules, r, look, (m - 1) as nat);
    }
}

proof fn lemma_line_sum(
    r: RouteView,
    rules: Seq<RuleView>,
    s: ScreenView,
    line: int,
    hashes: Map<(int, int), Seq<u64>>,
    m: nat,
)
    ensures
        line_sum(r, rules, s, line, hashes, m) == rules_fired(
            r,
            rules,
            m,
            s,
            line,
            hashes,
        ).1.len(),
    decreases m,
{
    if m > 0 {
        lemma_line_sum(r, rules, s, line, hashes, (m - 1) as nat);
    }
}

proof fn lemma_sum_grows(
    r: RouteView,
    rules: Seq<RuleView>,
    s: ScreenView,
    due: Seq<bool>,
    n: nat,
    hashes: Map<(int, int), Seq<u64>>,
    m: nat,
)
    requires
        n > 0,
    ensures
        ({
            let above = (n - 1) as nat;
            lines_sum(r, rules, s, due, n, hashes, m) == lines_sum(
                r,
                rules,
                s,
                due,
                above,
                hashes,
                m,
            ) + if due[n - 1] {
                line_sum(
                    lines_fired(r, rules, s, due, above, hashes).0,
                    rules,
                    s,
                    n - 1,
                    hashes,
                    m,
                )
            } else {
                0
            }
        }),
    decreases m,
{
    if m > 0 {
        lemma_sum_grows(r, rules, s, due, n, hashes, (m - 1) as nat);
    }
}

proof fn lemma_no_lines_sum(
    r: RouteView,
    rules: Seq<RuleView>,
    s: ScreenView,
    due: Seq<bool>,
    hashes: Map<(int, int), Seq<u64>>,
    m: nat,
)
    ensures
        lines_sum(r, rules, s, due, 0, hashes, m) == 0,
    decreases m,
{
    if m > 0 {
        lemma_no_lines_sum(r, rules, s, due, hashes, (m - 1) as nat);
    }
}

proof fn lemma_lines_sum(
    r: RouteView,
    rules: Seq<RuleView>,
    s: ScreenView,
    due: Seq<bool>,
    n: nat,
    hashes: Map<(int, int), Seq<u64>>,
)
    ensures
        lines_sum(r, rules, s, due, n, hashes, rules.len()) == lines_fired(
            r,
            rules,
            s,
            due,
            n,
            hashes,
        ).1.len(),
    decreases n,
{
    if n == 0 {
        lemma_no_lines_sum(r, rules, s, due, hashes, rules.len());
    } else {
        let above = (n - 1) as nat;
        lemma_lines_sum(r, rules, s, due, above, hashes);
        lemma_sum_grows(r, rules, s, due, n, hashes, rules.len());
        let before = lines_fired(r, rules, s, due, above, hashes).0;
        lemma_line_sum(before, rules, s, n - 1, hashes, rules.len());
    }
}

} // verus!
