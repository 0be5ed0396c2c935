//! What a rule does for a match, and for which lines it is asked.
use crate::matching::{all_matches, onig_accepts, substituted, MatchView};
use crate::session::capped_text;
use crate::triggers::{
    accepted_rules, feed_start, fired_for, hits_with, in_view, joined_lines, line_highlights,
    lines_due, lines_fired, noted, prepared, rearmed, reflowed, resolution, rule_fired,
    rule_highlights, rules_fired, scanned, scanned_text, seen_after, substituted_all,
    view_highlights, ActionView, HighlightView, LineKey, ResolvedView, RouteView, RuleConfig,
    RuleView, ScreenView, FEED_PAYLOAD_CAP, HIGHLIGHTS_PER_LINE,
};
use vstd::prelude::*;
use vstd::utf8::encode_utf8;

verus! {

/// Whether a template refers to nothing.
pub open spec fn is_plain(text: Seq<char>) -> bool {
    forall|i: int| 0 <= i < text.len() ==> #[trigger] text[i] != '\\'
}

proof fn lemma_plain_front(
    front: Seq<char>,
    rest: Seq<char>,
    groups: Seq<Option<Seq<char>>>,
)
    requires
        is_plain(front),
    ensures
        substituted(front + rest, groups) == front + substituted(rest, groups),
    decreases front.len(),
{
    if front.len() == 0 {
        assert(front + rest =~= rest);
        assert(front + substituted(rest, groups) =~= substituted(rest, groups));
    } else {
        let tail = front.skip(1);
        assert forall|i: int| 0 <= i < tail.len() implies #[trigger] tail[i] != '\\' by {
            assert(tail[i] == front[i + 1]);
        }
        lemma_plain_front(tail, rest, groups);
        assert((front + rest)[0] == front[0]);
        assert((front + rest).skip(1) =~= tail + rest);
        assert(seq![front[0]] + (tail + substituted(rest, groups)) =~= front + substituted(
            rest,
            groups,
        ));
    }
}

/// A template without a backslash is the text itself, whatever matched.
pub proof fn law_a_plain_template_is_itself(text: Seq<char>, groups: Seq<Option<Seq<char>>>)
    requires
        is_plain(text),
    ensures
        substituted(text, groups) == text,
{
    lemma_plain_front(text, Seq::empty(), groups);
    assert(text + Seq::<char>::empty() =~= text);
    assert(substituted(Seq::empty(), groups) =~= Seq::<char>::empty());
}

/// A backslash and a digit stand for what the group of that number matched, for
/// nothing where it matched nothing; two backslashes stand for one, and one
/// before anything else for itself.
pub proof fn law_a_reference_is_what_its_group_matched(
    front: Seq<char>,
    n: int,
    rest: Seq<char>,
    groups: Seq<Option<Seq<char>>>,
    other: char,
)
    requires
        is_plain(front),
        0 <= n <= 9,
        other != '\\',
        !('0' <= other <= '9'),
    ensures
        ({
            let digit = ('0' as int + n) as char;
            let text = if n < groups.len() && groups[n] is Some {
                groups[n]->0
            } else {
                Seq::empty()
            };
            substituted(front + seq!['\\', digit] + rest, groups) == front + text + substituted(
                rest,
                groups,
            )
        }),
        substituted(front + seq!['\\', '\\'] + rest, groups) == front + seq!['\\'] + substituted(
            rest,
            groups,
        ),
        substituted(front + seq!['\\', other] + rest, groups) == front + seq!['\\', other]
            + substituted(rest, groups),
        substituted(front + seq!['\\'], groups) == front + seq!['\\'],
{
    let digit = ('0' as int + n) as char;
    let a = seq!['\\', digit] + rest;
    lemma_plain_front(front, a, groups);
    assert(front + seq!['\\', digit] + rest =~= front + a);
    assert(a.skip(2) =~= rest);
    let text = if n < groups.len() && groups[n] is Some {
        groups[n]->0
    } else {
        Seq::empty()
    };
    assert(substituted(a, groups) == text + substituted(rest, groups));
    assert(front + (text + substituted(rest, groups)) =~= front + text + substituted(rest, groups));
    let b = seq!['\\', '\\'] + rest;
    lemma_plain_front(front, b, groups);
    assert(front + seq!['\\', '\\'] + rest =~= front + b);
    assert(b.skip(2) =~= rest);
    assert(front + (seq!['\\'] + substituted(rest, groups)) =~= front + seq!['\\'] + substituted(
        rest,
        groups,
    ));
    let c = seq!['\\', other] + rest;
    lemma_plain_front(front, c, groups);
    assert(front + seq!['\\', other] + rest =~= front + c);
    let d = c.skip(1);
    assert(d =~= seq![other] + rest);
    lemma_plain_front(seq![other], rest, groups);
    assert(front + (seq!['\\'] + (seq![other] + substituted(rest, groups))) =~= front + seq![
        '\\',
        other,
    ] + substituted(rest, groups));
    let e = seq!['\\'];
    lemma_plain_front(front, e, groups);
    assert(e.skip(1) =~= Seq::<char>::empty());
    assert(substituted(Seq::empty(), groups) =~= Seq::<char>::empty());
    assert(substituted(e, groups) == seq!['\\'] + substituted(e.skip(1), groups));
    assert(substituted(e, groups) =~= e);
}

/// The text that is sent where a rule sends one: what a template comes to.
pub open spec fn text_sent(template: Seq<char>, groups: Seq<Option<Seq<char>>>) -> Option<Seq<char>> {
    match resolution(ActionView::SendText { text: template }, groups, Seq::empty()) {
        ResolvedView::SendText(text) => Some(text),
        _ => None,
    }
}

/// A notification has the title, the body and the urgency of its rule, each from
/// its own: a title or a body that refers to nothing is shown as it stands,
/// whatever the other one and the match are.
pub proof fn law_a_notification_says_what_its_rule_says(
    title: Seq<char>,
    body: Seq<char>,
    urgency: u8,
    groups: Seq<Option<Seq<char>>>,
    feed: Seq<Seq<char>>,
)
    ensures
        resolution(ActionView::Notify { title, body, urgency }, groups, feed)
            matches ResolvedView::Notify { title: t, body: b, urgency: u } && {
            &&& u == urgency
            &&& is_plain(title) ==> t == title
            &&& is_plain(body) ==> b == body
            &&& Some(t) == text_sent(title, groups)
            &&& Some(b) == text_sent(body, groups)
        },
{
    if is_plain(title) {
        law_a_plain_template_is_itself(title, groups);
    }
    if is_plain(body) {
        law_a_plain_template_is_itself(body, groups);
    }
}

/// A text that refers to nothing is sent as it stands, a color is the rule's, and
/// a highlight sends nothing.
pub proof fn law_texts_and_colors_are_the_rules(
    text: Seq<char>,
    tab: [u32; 4],
    mark: [u8; 4],
    groups: Seq<Option<Seq<char>>>,
    feed: Seq<Seq<char>>,
)
    ensures
        is_plain(text) ==> resolution(ActionView::SendText { text }, groups, feed)
            == ResolvedView::SendText(text),
        resolution(ActionView::SendText { text }, groups, feed) is SendText,
        resolution(ActionView::TabColor { color: tab }, groups, feed) == ResolvedView::TabColor(
            tab,
        ),
        resolution(ActionView::Highlight { color: mark }, groups, feed)
            matches ResolvedView::SendText(sent) && sent.len() == 0,
{
    if is_plain(text) {
        law_a_plain_template_is_itself(text, groups);
    }
}

/// A program is run as the rule names it, never as the match does, with as many
/// arguments in their order, each filled in on its own. A coprocess is fed with
/// the screen exactly where the rule says so.
pub proof fn law_a_program_is_the_rules(
    program: Seq<char>,
    args: Seq<Seq<char>>,
    feed_screen: bool,
    groups: Seq<Option<Seq<char>>>,
    feed: Seq<Seq<char>>,
    i: int,
)
    requires
        0 <= i < args.len(),
    ensures
        resolution(ActionView::Run { program, args }, groups, feed) matches ResolvedView::Run {
            program: p,
            args: a,
        } && p == program && a.len() == args.len() && (is_plain(args[i]) ==> a[i] == args[i])
            && Some(a[i]) == text_sent(args[i], groups),
        resolution(ActionView::Coprocess { program, args, feed_screen }, groups, feed)
            matches ResolvedView::Coprocess { program: p, args: a, stdin } && p == program
            && a.len() == args.len() && (is_plain(args[i]) ==> a[i] == args[i]) && Some(a[i])
            == text_sent(args[i], groups) && (stdin is Some <==> feed_screen),
{
    if is_plain(args[i]) {
        law_a_plain_template_is_itself(args[i], groups);
    }
    assert(substituted_all(args, groups)[i] == substituted(args[i], groups));
}

proof fn lemma_capped_suffix(text: Seq<char>, max: int)
    ensures
        ({
            let kept = capped_text(text, max);
            &&& kept.len() <= text.len()
            &&& kept == text.skip(text.len() - kept.len())
            &&& max >= 0 ==> encode_utf8(kept).len() <= max
            &&& encode_utf8(text).len() <= max ==> kept == text
        }),
    decreases text.len(),
{
    if text.len() == 0 || encode_utf8(text).len() <= max {
        assert(text.skip(0) =~= text);
    } else {
        lemma_capped_suffix(text.skip(1), max);
        let kept = capped_text(text, max);
        assert(text.skip(1).skip(text.len() - 1 - kept.len()) =~= text.skip(
            text.len() - kept.len(),
        ));
    }
}

proof fn lemma_joined(a: Seq<Seq<char>>, b: Seq<Seq<char>>)
    requires
        a.len() > 0,
        b.len() > 0,
    ensures
        joined_lines(a + b) == joined_lines(a) + seq!['\n'] + joined_lines(b),
    decreases b.len(),
{
    let whole = a + b;
    assert(whole.last() == b.last());
    if b.len() == 1 {
        assert(whole.drop_last() =~= a);
        assert(joined_lines(a).push('\n') + b[0] =~= joined_lines(a) + seq!['\n'] + b[0]);
    } else {
        lemma_joined(a, b.drop_last());
        assert(whole.drop_last() =~= a + b.drop_last());
        let front = joined_lines(a) + seq!['\n'];
        assert((front + joined_lines(b.drop_last())).push('\n') + b.last() =~= front + (
        joined_lines(b.drop_last()).push('\n') + b.last()));
    }
}

/// A coprocess is fed with the end of what is shown: all of it where it fits, its
/// lines in their order with a line end between two.
pub proof fn law_a_coprocess_is_fed_with_the_latest_lines(
    program: Seq<char>,
    args: Seq<Seq<char>>,
    groups: Seq<Option<Seq<char>>>,
    above: Seq<Seq<char>>,
    line: Seq<char>,
)
    requires
        above.len() > 0,
    ensures
        joined_lines(seq![line]) == line,
        joined_lines(above + seq![line]) == joined_lines(above) + seq!['\n'] + line,
        ({
            let shown = joined_lines(above + seq![line]);
            resolution(
                ActionView::Coprocess { program, args, feed_screen: true },
                groups,
                above + seq![line],
            ) matches ResolvedView::Coprocess { stdin, .. } && {
                &&& stdin is Some
                &&& stdin->0.len() <= shown.len()
                &&& stdin->0 == shown.skip(shown.len() - stdin->0.len())
                &&& encode_utf8(stdin->0).len() <= 49152
                &&& encode_utf8(shown).len() <= 49152 ==> stdin->0 == shown
            }
        }),
{
    lemma_joined(above, seq![line]);
    lemma_capped_suffix(joined_lines(above + seq![line]), FEED_PAYLOAD_CAP as int);
}

// ---------------------------------------------------------------------------
// Which matches act.

proof fn lemma_all_act(
    fired: Seq<(u64, u64)>,
    rule: RuleView,
    hits: Seq<(MatchView, u64)>,
    feed: Seq<Seq<char>>,
)
    requires
        !rule.once,
    ensures
        ({
            let (after, actions) = fired_for(fired, rule, false, hits, feed);
            &&& after == fired
            &&& actions.len() == hits.len()
            &&& forall|i: int|
                0 <= i < hits.len() ==> #[trigger] actions[i] == resolution(
                    rule.action,
                    hits[i].0.groups,
                    feed,
                )
        }),
    decreases hits.len(),
{
    if hits.len() > 0 {
        lemma_all_act(fired, rule, hits.skip(1), feed);
        let (after, actions) = fired_for(fired, rule, false, hits, feed);
        let more = fired_for(fired, rule, false, hits.skip(1), feed).1;
        assert forall|i: int| 0 <= i < hits.len() implies #[trigger] actions[i] == resolution(
            rule.action,
            hits[i].0.groups,
            feed,
        ) by {
            if i > 0 {
                assert(actions[i] == more[i - 1]);
                assert(hits.skip(1)[i - 1] == hits[i]);
            }
        }
    }
}

/// A rule acts on a finished line for every match, in order, with what that match
/// caught; one that fires at once does not act there, nor does a highlight.
pub proof fn law_a_finished_line_fires_for_every_match(
    r: RouteView,
    rule: RuleView,
    hits: Seq<(MatchView, u64)>,
    feed: Seq<Seq<char>>,
)
    requires
        !rule.once,
    ensures
        rule.instant || rule.action is Highlight ==> rule_fired(r, rule, false, hits, feed) == (
            r,
            Seq::<ResolvedView>::empty(),
        ),
        !rule.instant && !(rule.action is Highlight) ==> {
            let (after, actions) = rule_fired(r, rule, false, hits, feed);
            &&& after.fired == r.fired && after.once == r.once
            &&& actions.len() == hits.len()
            &&& forall|i: int|
                0 <= i < hits.len() ==> #[trigger] actions[i] == resolution(
                    rule.action,
                    hits[i].0.groups,
                    feed,
                )
        },
{
    lemma_all_act(r.fired, rule, hits, feed);
}

/// The line of the cursor is for rules that fire at once: the first match of such
/// a rule acts there where it did not fire before, and a rule for finished lines
/// does not.
pub proof fn law_the_cursor_line_is_for_instant_rules(
    r: RouteView,
    rule: RuleView,
    hits: Seq<(MatchView, u64)>,
    feed: Seq<Seq<char>>,
)
    requires
        hits.len() > 0,
    ensures
        !rule.instant || rule.action is Highlight ==> rule_fired(r, rule, true, hits, feed).1.len()
            == 0,
        rule.instant && !(rule.action is Highlight) && !r.once.contains(rule.id)
            && !r.fired.contains((rule.id, hits[0].1)) ==> {
            let (after, actions) = rule_fired(r, rule, true, hits, feed);
            &&& actions.len() > 0
            &&& actions[0] == resolution(rule.action, hits[0].0.groups, feed)
            &&& after.fired.contains((rule.id, hits[0].1))
            &&& rule.once ==> actions.len() == 1 && after.once.contains(rule.id)
        },
{
    if rule.instant && !(rule.action is Highlight) && !r.once.contains(rule.id)
        && !r.fired.contains((rule.id, hits[0].1)) {
        let key = (rule.id, hits[0].1);
        let now = r.fired.push(key);
        assert(now.last() == key);
        lemma_fired_kept(now, rule, hits.skip(1), feed, key);
        assert(r.once.push(rule.id).last() == rule.id);
    }
}

proof fn lemma_fired_kept(
    fired: Seq<(u64, u64)>,
    rule: RuleView,
    hits: Seq<(MatchView, u64)>,
    feed: Seq<Seq<char>>,
    key: (u64, u64),
)
    requires
        fired.contains(key),
    ensures
        fired_for(fired, rule, true, hits, feed).0.contains(key),
    decreases hits.len(),
{
    if hits.len() > 0 {
        let next = (rule.id, hits[0].1);
        let now = fired.push(next);
        assert(now[fired.index_of(key)] == key);
        lemma_fired_kept(fired, rule, hits.skip(1), feed, key);
        lemma_fired_kept(now, rule, hits.skip(1), feed, key);
    }
}

/// A rule that fires once acts for the first match on a finished line, and is
/// remembered.
pub proof fn law_a_rule_that_fires_once_does_so(
    r: RouteView,
    rule: RuleView,
    hits: Seq<(MatchView, u64)>,
    feed: Seq<Seq<char>>,
)
    requires
        rule.once,
        !rule.instant,
        !(rule.action is Highlight),
        !r.once.contains(rule.id),
        hits.len() > 0,
    ensures
        ({
            let (after, actions) = rule_fired(r, rule, false, hits, feed);
            &&& actions == seq![resolution(rule.action, hits[0].0.groups, feed)]
            &&& after.once.contains(rule.id)
            &&& forall|id: u64| r.once.contains(id) ==> #[trigger] after.once.contains(id)
        }),
{
    let grown = r.once.push(rule.id);
    assert(grown.last() == rule.id);
    assert forall|id: u64| r.once.contains(id) implies #[trigger] grown.contains(id) by {
        assert(grown[r.once.index_of(id)] == id);
    }
}

// ---------------------------------------------------------------------------
// Which lines are looked at.

/// Whether a line of the screen was looked at before: at that place from the
/// start of the history, with that content, on that side of the cursor.
pub open spec fn was_seen(seen: Seq<LineKey>, s: ScreenView, hashes: Seq<u64>, i: int) -> bool {
    exists|j: int|
        0 <= j < seen.len() && (#[trigger] seen[j]).0 == s.history + i && seen[j].1 == hashes[i]
            && seen[j].2 == (i < s.cursor_row)
}

proof fn lemma_seen_after(
    seen: Seq<LineKey>,
    s: ScreenView,
    hashes: Seq<u64>,
    n: nat,
    i: int,
)
    requires
        n <= s.lines.len(),
        n <= i < s.lines.len(),
        0 <= s.history,
        s.history + s.lines.len() <= i64::MAX,
    ensures
        seen_after(seen, s, hashes, n).contains(
            ((s.history + i) as i64, hashes[i], i < s.cursor_row),
        ) <==> seen.contains(((s.history + i) as i64, hashes[i], i < s.cursor_row)),
    decreases n,
{
    if n > 0 {
        lemma_seen_after(seen, s, hashes, (n - 1) as nat, i);
        let before = seen_after(seen, s, hashes, (n - 1) as nat);
        let key = ((s.history + i) as i64, hashes[i], i < s.cursor_row);
        let other = ((s.history + n - 1) as i64, hashes[n - 1], n - 1 < s.cursor_row);
        assert(key.0 != other.0);
        let grown = before.push(other);
        if before.contains(key) {
            assert(grown[before.index_of(key)] == key);
        }
        if grown.contains(key) {
            let j = grown.index_of(key);
            assert(before[j] == key);
        }
    }
}

/// Rules are tried on the live line of the cursor at every look, and on any other
/// line when it is new: not where the same text was looked at at that place
/// before, not after a new layout, and never on a blank line.
pub proof fn law_new_lines_are_looked_at(
    r: RouteView,
    s: ScreenView,
    hashes: Seq<u64>,
    i: int,
)
    requires
        0 <= i < s.lines.len(),
        0 <= s.history,
        s.history + s.lines.len() <= i64::MAX,
        r.seen.len() <= 8192,
    ensures
        ({
            let due = lines_due(prepared(r, s).seen, reflowed(r, s), s, hashes)[i];
            let same_size = r.dims == Some((s.lines.len() as usize, s.columns));
            &&& s.lines[i].len() == 0 ==> !due
            &&& s.lines[i].len() > 0 && s.live && i == s.cursor_row ==> due
            &&& s.lines[i].len() > 0 && !(s.live && i == s.cursor_row) ==> (due <==> same_size
                && !was_seen(r.seen, s, hashes, i))
        }),
{
    let p = prepared(r, s).seen;
    let key = ((s.history + i) as i64, hashes[i], i < s.cursor_row);
    lemma_seen_after(p, s, hashes, i as nat, i);
    let test = |k: LineKey| k.0 >= s.history;
    r.seen.filter_lemma(test);
    if !reflowed(r, s) {
        assert(p == in_view(r.seen, s.history));
        if was_seen(r.seen, s, hashes, i) {
            let j = choose|j: int|
                0 <= j < r.seen.len() && (#[trigger] r.seen[j]).0 == s.history + i && r.seen[j].1
                    == hashes[i] && r.seen[j].2 == (i < s.cursor_row);
            assert(r.seen[j] == key);
            assert(test(r.seen[j]));
            assert(p.contains(key));
        }
        if p.contains(key) {
            lemma_filter_from(r.seen, test, key);
            let j = r.seen.index_of(key);
            assert(r.seen[j] == key);
            assert(was_seen(r.seen, s, hashes, i));
        }
    }
}

proof fn lemma_filter_from(seen: Seq<LineKey>, test: spec_fn(LineKey) -> bool, key: LineKey)
    requires
        seen.filter(test).contains(key),
    ensures
        seen.contains(key),
    decreases seen.len(),
{
    reveal(Seq::filter);
    if seen.len() > 0 {
        let init = seen.drop_last();
        let kept = seen.filter(test);
        let j = kept.index_of(key);
        if test(seen.last()) && j == kept.len() - 1 {
            assert(seen[seen.len() - 1] == key);
        } else {
            assert(init.filter(test)[j] == key);
            lemma_filter_from(init, test, key);
            assert(seen[init.index_of(key)] == key);
        }
    }
}

/// Without a change on the screen, or without rules, nothing is done, and nothing
/// that fired or was looked at is forgotten.
pub proof fn law_an_unchanged_screen_fires_nothing(
    rules: Seq<RuleView>,
    r: RouteView,
    s: ScreenView,
    line_hashes: Seq<u64>,
    match_hashes: Map<(int, int), Seq<u64>>,
)
    requires
        !s.changed || rules.len() == 0,
    ensures
        scanned(rules, r, s, line_hashes, match_hashes).1.len() == 0,
        ({
            let after = scanned(rules, r, s, line_hashes, match_hashes).0;
            after.once == r.once && after.fired == r.fired && after.seen == r.seen && after.row
                == r.row
        }),
{
}

/// What fired on the line of the cursor counts as long as the cursor is on that
/// line, also while the view is scrolled up, and is forgotten once it goes to
/// another one. What fires once is never forgotten by a look.
pub proof fn law_what_fired_counts_for_its_line(r: RouteView, s: ScreenView)
    ensures
        !s.live || r.row == s.history + s.cursor_row ==> prepared(r, s).fired == r.fired
            && prepared(r, s).row == r.row,
        s.live && r.row != s.history + s.cursor_row ==> prepared(r, s).fired.len() == 0,
        s.live && i64::MIN <= s.history + s.cursor_row <= i64::MAX ==> prepared(r, s).row
            == s.history + s.cursor_row,
        prepared(r, s).once == r.once,
{
}

/// A look at a single finished line: a rule acts for every match in it, with what
/// the match caught.
pub proof fn law_a_new_line_is_matched(
    rule: RuleView,
    r: RouteView,
    s: ScreenView,
    text: Seq<char>,
    line_hashes: Seq<u64>,
    match_hashes: Map<(int, int), Seq<u64>>,
)
    requires
        s.lines == seq![text],
        0 < text.len() <= 4096,
        s.cursor_row > 0,
        s.changed,
        0 <= s.history < i64::MAX,
        r.dims == Some((1usize, s.columns)),
        r.seen.len() == 0,
        !rule.instant,
        !rule.once,
        !(rule.action is Highlight),
    ensures
        ({
            let actions = scanned(seq![rule], r, s, line_hashes, match_hashes).1;
            let found = all_matches(rule.regex, text);
            &&& actions.len() == found.len()
            &&& forall|k: int|
                0 <= k < found.len() ==> #[trigger] actions[k] == resolution(
                    rule.action,
                    found[k].groups,
                    s.feed,
                )
        }),
{
    law_new_lines_are_looked_at(r, s, line_hashes, 0);
    let rules = seq![rule];
    let due = lines_due(prepared(r, s).seen, reflowed(r, s), s, line_hashes);
    assert(due[0]);
    let start = noted(r, s, line_hashes);
    reveal_with_fuel(lines_fired, 2);
    reveal_with_fuel(rules_fired, 2);
    let hits = hits_with(rule, scanned_text(text), match_hashes[(0, 0)]);
    law_a_finished_line_fires_for_every_match(start, rule, hits, s.feed);
    let one = rule_fired(start, rule, false, hits, s.feed).1;
    let none = Seq::<ResolvedView>::empty();
    assert(rules_fired(start, rules, 1, s, 0, match_hashes).1 == none + one);
    assert(none + one =~= one);
    assert(scanned(rules, r, s, line_hashes, match_hashes).1 == none + one);
}

/// Whether a highlight marks a match of a highlighting rule on a line in view:
/// one of the first so many of that rule on that line, in the rule's color, from
/// its first to its last column.
pub open spec fn is_marked(
    rules: Seq<RuleView>,
    lines: Seq<Seq<char>>,
    offset: int,
    topmost: int,
    n: nat,
    h: HighlightView,
) -> bool {
    exists|i: int, j: int, k: int|
        0 <= i < n && 0 <= j < rules.len() && #[trigger] marks(
            rules[j],
            lines[i],
            i - offset,
            k,
            h,
        ) && lines[i].len() > 0 && i - offset >= topmost
}

/// Whether a highlight marks match `k` of a rule on a line.
pub open spec fn marks(
    rule: RuleView,
    text: Seq<char>,
    line: int,
    k: int,
    h: HighlightView,
) -> bool {
    let all = all_matches(rule.regex, text);
    &&& 0 <= k < all.len()
    &&& k < HIGHLIGHTS_PER_LINE
    &&& h.line == line
    &&& h.start == all[k].start
    &&& h.end == if all[k].end > all[k].start + 1 && all[k].end > 0 {
        all[k].end - 1
    } else {
        if 0 > all[k].start { 0 } else { all[k].start }
    }
    &&& rule.action matches ActionView::Highlight { color } && h.color == color
}

proof fn lemma_rule_marks(rule: RuleView, text: Seq<char>, line: int, h: HighlightView)
    ensures
        rule_highlights(rule, line, text).contains(h) <==> exists|k: int| marks(
            rule,
            text,
            line,
            k,
            h,
        ),
{
    let made = rule_highlights(rule, line, text);
    if made.contains(h) {
        let k = made.index_of(h);
        assert(made[k] == h);
        assert(marks(rule, text, line, k, h));
    }
    if exists|k: int| marks(rule, text, line, k, h) {
        let k = choose|k: int| marks(rule, text, line, k, h);
        assert(made[k] == h);
    }
}

proof fn lemma_contains_sum<A>(a: Seq<A>, b: Seq<A>, x: A)
    ensures
        (a + b).contains(x) <==> a.contains(x) || b.contains(x),
{
    if a.contains(x) {
        assert((a + b)[a.index_of(x)] == x);
    }
    if b.contains(x) {
        assert((a + b)[a.len() + b.index_of(x)] == x);
    }
    if (a + b).contains(x) {
        let i = (a + b).index_of(x);
        if i < a.len() {
            assert(a[i] == x);
        } else {
            assert(b[i - a.len()] == x);
        }
    }
}

proof fn lemma_line_marks(
    rules: Seq<RuleView>,
    n: nat,
    line: int,
    text: Seq<char>,
    h: HighlightView,
)
    requires
        n <= rules.len(),
    ensures
        line_highlights(rules, n, line, text).contains(h) <==> exists|j: int, k: int|
            0 <= j < n && #[trigger] marks(rules[j], text, line, k, h),
    decreases n,
{
    if n > 0 {
        lemma_line_marks(rules, (n - 1) as nat, line, text, h);
        lemma_rule_marks(rules[n - 1], text, line, h);
        lemma_contains_sum(
            line_highlights(rules, (n - 1) as nat, line, text),
            rule_highlights(rules[n - 1], line, text),
            h,
        );
    }
}

/// What is highlighted are the matches of the highlighting rules on the lines in
/// view, in the colors of the rules, and nothing else.
pub proof fn law_highlights_are_the_matches(
    rules: Seq<RuleView>,
    lines: Seq<Seq<char>>,
    offset: int,
    topmost: int,
    n: nat,
    h: HighlightView,
)
    requires
        n <= lines.len(),
    ensures
        view_highlights(rules, lines, offset, topmost, n).contains(h) <==> is_marked(
            rules,
            lines,
            offset,
            topmost,
            n,
            h,
        ),
    decreases n,
{
    if n > 0 {
        let before = (n - 1) as nat;
        law_highlights_are_the_matches(rules, lines, offset, topmost, before, h);
        let line = n - 1 - offset;
        lemma_line_marks(rules, rules.len(), line, lines[n - 1], h);
        lemma_contains_sum(
            view_highlights(rules, lines, offset, topmost, before),
            line_highlights(rules, rules.len(), line, lines[n - 1]),
            h,
        );
    }
}

/// Rules that are armed again may fire for what is on the screen: what fired on the
/// line of the cursor and what fired once is forgotten. A line that the cursor had
/// left behind stays known, so that it does not fire twice.
pub proof fn law_rules_are_armed_again(r: RouteView, key: LineKey)
    ensures
        ({
            let after = rearmed(r);
            &&& after.once.len() == 0
            &&& after.fired.len() == 0
            &&& after.row == 0
            &&& after.dims == r.dims
            &&& after.seen.contains(key) <==> r.seen.contains(key) && key.2
        }),
{
    let kept = |k: LineKey| k.2;
    let after = r.seen.filter(kept);
    if r.seen.contains(key) && key.2 {
        let i = r.seen.index_of(key);
        assert(kept(r.seen[i]));
        r.seen.lemma_filter_contains(kept, i);
    }
    if after.contains(key) {
        let i = after.index_of(key);
        r.seen.lemma_filter_pred(kept, i);
        r.seen.lemma_filter_contains_rev(kept, key);
    }
}

/// Whether a rule is what a setting asks for.
pub open spec fn is_rule_of(rule: (Seq<char>, bool, bool, ActionView), c: RuleConfig) -> bool {
    rule.0 == c.regex@ && rule.1 == c.instant && rule.2 == c.once && rule.3 == c.action@
}

/// Each setting whose pattern is one makes a rule as it says, in their order; one
/// whose pattern is none costs only itself.
pub proof fn law_a_bad_pattern_costs_only_itself(config: Seq<RuleConfig>, more: RuleConfig)
    ensures
        accepted_rules(Seq::<RuleConfig>::empty()).len() == 0,
        onig_accepts(more.regex@) ==> {
            let all = accepted_rules(config.push(more));
            &&& all.drop_last() == accepted_rules(config)
            &&& is_rule_of(all.last(), more)
        },
        !onig_accepts(more.regex@) ==> accepted_rules(config.push(more)) == accepted_rules(config),
{
    assert(config.push(more).drop_last() =~= config);
    let all = accepted_rules(config.push(more));
    if onig_accepts(more.regex@) {
        assert(all.drop_last() =~= accepted_rules(config));
    }
}

/// At most 200 lines of the history are fed to a coprocess.
pub proof fn law_a_feed_reaches_back_200_lines(topmost: i32, start: i32)
    requires
        call_ensures(feed_start, (topmost,), start),
    ensures
        start >= -200,
        start >= topmost,
        start == topmost || start == -200,
{
}

/// Of a line its first 4096 characters are looked at.
pub proof fn law_a_long_line_is_looked_at_in_part(line: Seq<char>)
    ensures
        line.len() <= 4096 ==> scanned_text(line) == line,
        line.len() > 4096 ==> scanned_text(line) == line.take(4096),
{
}

/// Lines that scrolled out of view, or stood in another layout, are forgotten; so
/// are all where they are too many. A line in view is known as long as the layout
/// stays.
pub proof fn law_lines_in_view_stay_known(r: RouteView, s: ScreenView, key: LineKey)
    ensures
        r.dims != Some((s.lines.len() as usize, s.columns)) ==> prepared(r, s).seen.len() == 0,
        prepared(r, s).seen.contains(key) ==> r.seen.contains(key) && key.0 >= s.history,
        r.dims == Some((s.lines.len() as usize, s.columns)) && r.seen.len() <= 8192
            && r.seen.contains(key) && key.0 >= s.history ==> prepared(r, s).seen.contains(key),
        prepared(r, s).seen.len() <= 8192,
        prepared(r, s).dims == Some((s.lines.len() as usize, s.columns)),
{
    let kept = |k: LineKey| k.0 >= s.history;
    let from = if reflowed(r, s) {
        Seq::empty()
    } else {
        r.seen
    };
    let after = from.filter(kept);
    from.lemma_filter_len(kept);
    assert(in_view(from, s.history) =~= after);
    if from.contains(key) && key.0 >= s.history {
        let i = from.index_of(key);
        assert(kept(from[i]));
        from.lemma_filter_contains(kept, i);
    }
    if after.contains(key) {
        let i = after.index_of(key);
        from.lemma_filter_pred(kept, i);
        from.lemma_filter_contains_rev(kept, key);
    }
}

} // verus!
