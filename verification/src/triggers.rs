//! Rules that act on what a terminal shows. Each line fires a rule once: a line
//! that was seen is known by its place and its content, and what matched on the
//! line of the cursor is known by the matched text, so that an answer typed into
//! it does not fire the rule again.
use crate::cli::first_chars;
use crate::matching::{
    accepts, all_matches, find_all, found_views, group_texts, onig_accepts, span, span_of,
    substitute, substituted, Found, MatchView,
};
use crate::pane::{opt_text, texts};
use crate::session::{cap_text, capped_text};
use crate::text::{chars_of, text_between};
use std::hash::{Hash, Hasher};
use vstd::prelude::*;
use vstd::string::StringExecFns;

verus! {

/// The longest part of a line that is looked at, in characters.
pub const LINE_SCAN_CAP: usize = 4096;

/// Lines of history that a coprocess is fed with.
pub const FEED_HISTORY_LINES: i32 = 200;

/// What a coprocess is fed with at most, in bytes: it must fit into a pipe.
pub const FEED_PAYLOAD_CAP: usize = 48 * 1024;

/// Lines that are remembered at most. A screen that redraws without scrolling
/// would be remembered without end.
pub const SEEN_CAP: usize = 8192;

/// Matches of a rule that are highlighted on a line at most.
pub const HIGHLIGHTS_PER_LINE: usize = 256;

/// What a rule does. Colors of tabs are bit patterns of single-precision
/// numbers.
#[derive(Clone, Debug)]
pub enum TriggerAction {
    Notify { title: String, body: String, urgency: u8 },
    TabColor { color: [u32; 4] },
    Run { program: String, args: Vec<String> },
    SendText { text: String },
    Coprocess { program: String, args: Vec<String>, feed_screen: bool },
    Highlight { color: [u8; 4] },
}

/// The mathematical value of a [`TriggerAction`].
pub enum ActionView {
    Notify { title: Seq<char>, body: Seq<char>, urgency: u8 },
    TabColor { color: [u32; 4] },
    Run { program: Seq<char>, args: Seq<Seq<char>> },
    SendText { text: Seq<char> },
    Coprocess { program: Seq<char>, args: Seq<Seq<char>>, feed_screen: bool },
    Highlight { color: [u8; 4] },
}

impl View for TriggerAction {
    type V = ActionView;

    open spec fn view(&self) -> ActionView {
        match self {
            TriggerAction::Notify { title, body, urgency } => ActionView::Notify {
                title: title@,
                body: body@,
                urgency: *urgency,
            },
            TriggerAction::TabColor { color } => ActionView::TabColor { color: *color },
            TriggerAction::Run { program, args } => ActionView::Run {
                program: program@,
                args: texts(args@),
            },
            TriggerAction::SendText { text } => ActionView::SendText { text: text@ },
            TriggerAction::Coprocess { program, args, feed_screen } => ActionView::Coprocess {
                program: program@,
                args: texts(args@),
                feed_screen: *feed_screen,
            },
            TriggerAction::Highlight { color } => ActionView::Highlight { color: *color },
        }
    }
}

/// What is done for a match, its groups filled in.
#[derive(Clone, Debug)]
pub enum ResolvedAction {
    Notify { title: String, body: String, urgency: u8 },
    TabColor([u32; 4]),
    Run { program: String, args: Vec<String> },
    SendText(String),
    Coprocess { program: String, args: Vec<String>, stdin: Option<String> },
}

/// The mathematical value of a [`ResolvedAction`].
#[verifier::ext_equal]
pub enum ResolvedView {
    Notify { title: Seq<char>, body: Seq<char>, urgency: u8 },
    TabColor([u32; 4]),
    Run { program: Seq<char>, args: Seq<Seq<char>> },
    SendText(Seq<char>),
    Coprocess { program: Seq<char>, args: Seq<Seq<char>>, stdin: Option<Seq<char>> },
}

impl View for ResolvedAction {
    type V = ResolvedView;

    open spec fn view(&self) -> ResolvedView {
        match self {
            ResolvedAction::Notify { title, body, urgency } => ResolvedView::Notify {
                title: title@,
                body: body@,
                urgency: *urgency,
            },
            ResolvedAction::TabColor(color) => ResolvedView::TabColor(*color),
            ResolvedAction::Run { program, args } => ResolvedView::Run {
                program: program@,
                args: texts(args@),
            },
            ResolvedAction::SendText(text) => ResolvedView::SendText(text@),
            ResolvedAction::Coprocess { program, args, stdin } => ResolvedView::Coprocess {
                program: program@,
                args: texts(args@),
                stdin: opt_text(*stdin),
            },
        }
    }
}

pub open spec fn resolved_views(actions: Seq<ResolvedAction>) -> Seq<ResolvedView> {
    Seq::new(actions.len(), |i: int| actions[i]@)
}

/// A rule of the settings.
#[derive(Debug)]
pub struct RuleConfig {
    pub regex: String,
    /// Fires on the line of the cursor, before it is finished.
    pub instant: bool,
    /// Fires a single time.
    pub once: bool,
    pub action: TriggerAction,
}

/// A rule. Its id stays the same when the rules around it change.
#[derive(Debug)]
pub struct Rule {
    pub regex: String,
    pub instant: bool,
    pub once: bool,
    pub action: TriggerAction,
    pub id: u64,
}

/// The mathematical value of a [`Rule`].
pub struct RuleView {
    pub regex: Seq<char>,
    pub instant: bool,
    pub once: bool,
    pub action: ActionView,
    pub id: u64,
}

impl View for Rule {
    type V = RuleView;

    open spec fn view(&self) -> RuleView {
        RuleView {
            regex: self.regex@,
            instant: self.instant,
            once: self.once,
            action: self.action@,
            id: self.id,
        }
    }
}

pub open spec fn rule_views(rules: Seq<Rule>) -> Seq<RuleView> {
    Seq::new(rules.len(), |i: int| rules[i]@)
}

// ---------------------------------------------------------------------------
// Hashes.

/// `FxHasher` over a text. The hash depends on the machine (the width of its
/// words and its architecture), so which one it is is left unsaid: callers say
/// that a hash was given for a text, and the functions that take hashes are exact
/// for every value.
#[verifier::external_body]
fn hash_text(text: &str) -> (hash: u64) {
    let mut hasher = rustc_hash::FxHasher::default();
    text.hash(&mut hasher);
    hasher.finish()
}

/// `FxHasher` over a pattern and an action in words. As of a text's hash, which
/// one it is is left unsaid.
#[verifier::external_body]
fn rule_id(regex: &str, action: &TriggerAction) -> (id: u64) {
    let mut hasher = rustc_hash::FxHasher::default();
    regex.hash(&mut hasher);
    format!("{action:?}").hash(&mut hasher);
    hasher.finish()
}

/// Whether a hash was given by [`hash_text`] for a text.
pub closed spec fn hash_given(text: Seq<char>, hash: u64) -> bool {
    exists|t: &str| t@ == text && #[trigger] call_ensures(hash_text, (t,), hash)
}

/// Whether an id was given by [`rule_id`] for a pattern and an action: it stays
/// with them wherever the rule stands among others.
pub closed spec fn id_given(regex: Seq<char>, action: ActionView, id: u64) -> bool {
    exists|t: &str, a: &TriggerAction|
        t@ == regex && a@ == action && #[trigger] call_ensures(rule_id, (t, a), id)
}

/// Whether a hash was given for what a pattern matched as a whole.
pub open spec fn match_hash_given(m: MatchView, hash: u64) -> bool {
    if m.groups.len() > 0 && m.groups[0] is Some {
        hash_given(m.groups[0]->0, hash)
    } else {
        hash == 0
    }
}

/// Whether hashes were given for the matches of a pattern in a text, one each.
pub open spec fn hashes_given(pattern: Seq<char>, text: Seq<char>, hashes: Seq<u64>) -> bool {
    &&& hashes.len() == all_matches(pattern, text).len()
    &&& forall|k: int|
        0 <= k < hashes.len() ==> match_hash_given(
            all_matches(pattern, text)[k],
            #[trigger] hashes[k],
        )
}

/// A match and the hash of what matched.
#[derive(Clone, Debug)]
pub struct Hit {
    pub found: Found,
    pub hash: u64,
}

pub open spec fn hit_views(hits: Seq<Hit>) -> Seq<(MatchView, u64)> {
    Seq::new(hits.len(), |i: int| (hits[i].found@, hits[i].hash))
}

pub open spec fn hit_hashes(hits: Seq<Hit>) -> Seq<u64> {
    Seq::new(hits.len(), |i: int| hits[i].hash)
}

pub open spec fn hit_matches(hits: Seq<(MatchView, u64)>) -> Seq<MatchView> {
    Seq::new(hits.len(), |i: int| hits[i].0)
}

/// The matches of a pattern in a text, each with the hash of what matched.
pub fn hits_of(pattern: &str, text: &str) -> (hits: Vec<Hit>)
    ensures
        hit_matches(hit_views(hits@)) == all_matches(pattern@, text@),
        hashes_given(pattern@, text@, hit_hashes(hits@)),
{
    let found = find_all(pattern, text);
    let ghost held = found@;
    let ghost all = found_views(held);
    let mut hits: Vec<Hit> = Vec::new();
    for one in it: found
        invariant
            it.seq() == held,
            all == found_views(held),
            hits@.len() == it.index(),
            forall|j: int|
                0 <= j < hits@.len() ==> (#[trigger] hits@[j]).found@ == all[j]
                    && match_hash_given(all[j], hits@[j].hash),
    {
        let ghost k = it.index() as int;
        assert(one == held[k]);
        assert(all[k] == one@);
        let hash: u64 = match one.groups.len() {
            0 => 0,
            _ => match &one.groups[0] {
                Some(text) => hash_text(text.as_str()),
                None => 0,
            },
        };
        assert(match_hash_given(all[k], hash));
        hits.push(Hit { found: one, hash });
    }
    assert(hit_matches(hit_views(hits@)) =~= all);
    assert(hashes_given(pattern@, text@, hit_hashes(hits@))) by {
        assert forall|j: int| 0 <= j < hits@.len() implies match_hash_given(
            all[j],
            #[trigger] hit_hashes(hits@)[j],
        ) by {
            assert(hits@[j].found@ == all[j]);
        }
    }
    hits
}

// ---------------------------------------------------------------------------
// Actions.

/// Lines with line ends between them.
pub open spec fn joined_lines(lines: Seq<Seq<char>>) -> Seq<char>
    decreases lines.len(),
{
    if lines.len() == 0 {
        Seq::empty()
    } else if lines.len() == 1 {
        lines[0]
    } else {
        joined_lines(lines.drop_last()).push('\n') + lines.last()
    }
}

/// What a coprocess is fed with: the end of the lines, as much as fits.
pub open spec fn feed_of(lines: Seq<Seq<char>>) -> Seq<char> {
    capped_text(joined_lines(lines), FEED_PAYLOAD_CAP as int)
}

/// What a coprocess is fed with.
pub fn capture_screen(lines: &Vec<String>) -> (text: String)
    ensures
        text@ == feed_of(texts(lines@)),
{
    let ghost all = texts(lines@);
    let mut text = String::new();
    let mut i: usize = 0;
    assert(all.take(0) =~= Seq::<Seq<char>>::empty());
    assert(text@ =~= joined_lines(all.take(0)));
    while i < lines.len()
        invariant
            i <= lines@.len(),
            all == texts(lines@),
            text@ == joined_lines(all.take(i as int)),
        decreases lines.len() - i,
    {
        let ghost before = text@;
        assert(all.take(i + 1).drop_last() =~= all.take(i as int));
        assert(all.take(i + 1).last() == lines@[i as int]@);
        if i > 0 {
            text.push('\n');
        }
        text.append(lines[i].as_str());
        i = i + 1;
        assert(text@ =~= joined_lines(all.take(i as int)));
    }
    assert(all.take(i as int) =~= all);
    cap_text(text, FEED_PAYLOAD_CAP)
}

/// Where the lines begin that a coprocess is fed with: at most so far above the
/// screen, and not above the topmost line.
pub fn feed_start(topmost: i32) -> (start: i32)
    ensures
        start == if topmost > -FEED_HISTORY_LINES {
            topmost as int
        } else {
            -FEED_HISTORY_LINES
        },
{
    if topmost > -FEED_HISTORY_LINES {
        topmost
    } else {
        -FEED_HISTORY_LINES
    }
}

pub open spec fn substituted_all(
    templates: Seq<Seq<char>>,
    groups: Seq<Option<Seq<char>>>,
) -> Seq<Seq<char>> {
    Seq::new(templates.len(), |i: int| substituted(templates[i], groups))
}

/// What an action comes to for a match.
pub open spec fn resolution(
    action: ActionView,
    groups: Seq<Option<Seq<char>>>,
    feed: Seq<Seq<char>>,
) -> ResolvedView {
    match action {
        ActionView::Notify { title, body, urgency } => ResolvedView::Notify {
            title: substituted(title, groups),
            body: substituted(body, groups),
            urgency,
        },
        ActionView::TabColor { color } => ResolvedView::TabColor(color),
        ActionView::Run { program, args } => ResolvedView::Run {
            program,
            args: substituted_all(args, groups),
        },
        ActionView::SendText { text } => ResolvedView::SendText(substituted(text, groups)),
        ActionView::Coprocess { program, args, feed_screen } => ResolvedView::Coprocess {
            program,
            args: substituted_all(args, groups),
            stdin: if feed_screen {
                Some(feed_of(feed))
            } else {
                None
            },
        },
        ActionView::Highlight { .. } => ResolvedView::SendText(Seq::empty()),
    }
}

fn substitute_all(templates: &Vec<String>, groups: &Vec<Option<String>>) -> (out: Vec<String>)
    ensures
        texts(out@) == substituted_all(texts(templates@), group_texts(groups@)),
{
    let mut out: Vec<String> = Vec::new();
    let mut i: usize = 0;
    while i < templates.len()
        invariant
            i <= templates@.len(),
            out@.len() == i,
            forall|j: int|
                0 <= j < i ==> (#[trigger] out@[j])@ == substituted(
                    templates@[j]@,
                    group_texts(groups@),
                ),
        decreases templates.len() - i,
    {
        out.push(substitute(templates[i].as_str(), groups));
        i = i + 1;
    }
    assert(texts(out@) =~= substituted_all(texts(templates@), group_texts(groups@)));
    out
}

/// What an action comes to for a match.
pub fn resolve(action: &TriggerAction, groups: &Vec<Option<String>>, feed: &Vec<String>) -> (resolved:
    ResolvedAction)
    ensures
        resolved@ == resolution(action@, group_texts(groups@), texts(feed@)),
{
    match action {
        TriggerAction::Notify { title, body, urgency } => ResolvedAction::Notify {
            title: substitute(title.as_str(), groups),
            body: substitute(body.as_str(), groups),
            urgency: *urgency,
        },
        TriggerAction::TabColor { color } => ResolvedAction::TabColor(*color),
        TriggerAction::Run { program, args } => ResolvedAction::Run {
            program: program.clone(),
            args: substitute_all(args, groups),
        },
        TriggerAction::SendText { text } => ResolvedAction::SendText(
            substitute(text.as_str(), groups),
        ),
        TriggerAction::Coprocess { program, args, feed_screen } => ResolvedAction::Coprocess {
            program: program.clone(),
            args: substitute_all(args, groups),
            stdin: if *feed_screen {
                Some(capture_screen(feed))
            } else {
                None
            },
        },
        TriggerAction::Highlight { .. } => {
            let nothing = String::new();
            assert(nothing@ =~= Seq::<char>::empty());
            ResolvedAction::SendText(nothing)
        },
    }
}

// ---------------------------------------------------------------------------
// What is remembered.

/// A line that was looked at: its place from the start of the history, the hash
/// of its content, and whether the cursor was behind it.
pub type LineKey = (i64, u64, bool);

/// What is remembered of a terminal.
struct RouteRecord {
    route: usize,
    seen: Vec<LineKey>,
    row: i64,
    fired: Vec<(u64, u64)>,
    dims: Option<(usize, usize)>,
    once: Vec<u64>,
}

/// The mathematical value of what is remembered of a terminal.
#[verifier::ext_equal]
pub struct RouteView {
    /// The lines that were looked at.
    pub seen: Seq<LineKey>,
    /// The place of the cursor's line, from the start of the history.
    pub row: i64,
    /// What fired on the line of the cursor: rules and the hashes of what
    /// matched.
    pub fired: Seq<(u64, u64)>,
    /// The lines and columns of the screen.
    pub dims: Option<(usize, usize)>,
    /// The rules that fire once and did.
    pub once: Seq<u64>,
}

impl View for RouteRecord {
    type V = RouteView;

    closed spec fn view(&self) -> RouteView {
        RouteView {
            seen: self.seen@,
            row: self.row,
            fired: self.fired@,
            dims: self.dims,
            once: self.once@,
        }
    }
}

/// Nothing remembered.
pub open spec fn unknown_route() -> RouteView {
    RouteView {
        seen: Seq::empty(),
        row: 0,
        fired: Seq::empty(),
        dims: None,
        once: Seq::empty(),
    }
}

/// What a terminal shows.
#[derive(Debug)]
pub struct Screen {
    /// How many lines the history holds.
    pub history: i64,
    /// The line of the cursor on the screen.
    pub cursor_row: i64,
    pub columns: usize,
    /// Whether cells changed since the last look.
    pub changed: bool,
    /// Whether the end of the output is in view.
    pub live: bool,
    /// The lines of the screen.
    pub lines: Vec<String>,
    /// The lines that a coprocess is fed with.
    pub feed: Vec<String>,
}

/// The mathematical value of a [`Screen`].
pub struct ScreenView {
    pub history: int,
    pub cursor_row: int,
    pub columns: usize,
    pub changed: bool,
    pub live: bool,
    pub lines: Seq<Seq<char>>,
    pub feed: Seq<Seq<char>>,
}

impl View for Screen {
    type V = ScreenView;

    open spec fn view(&self) -> ScreenView {
        ScreenView {
            history: self.history as int,
            cursor_row: self.cursor_row as int,
            columns: self.columns,
            changed: self.changed,
            live: self.live,
            lines: texts(self.lines@),
            feed: texts(self.feed@),
        }
    }
}

/// Whether the places of a screen's lines can be numbered.
pub open spec fn screen_wf(s: ScreenView) -> bool {
    &&& 0 <= s.history
    &&& 0 <= s.cursor_row
    &&& s.history + s.lines.len() <= i64::MAX
    &&& s.history + s.cursor_row <= i64::MAX
}

/// A set as a sequence: an element is added once.
pub open spec fn added<A>(s: Seq<A>, x: A) -> Seq<A> {
    if s.contains(x) {
        s
    } else {
        s.push(x)
    }
}

pub open spec fn size_of_screen(s: ScreenView) -> (usize, usize) {
    (s.lines.len() as usize, s.columns)
}

/// Whether the lines were laid out anew, so that their places mean others.
pub open spec fn reflowed(r: RouteView, s: ScreenView) -> bool {
    r.dims != Some(size_of_screen(s))
}

/// The lines that are still on the screen.
pub open spec fn in_view(seen: Seq<LineKey>, history: int) -> Seq<LineKey> {
    seen.filter(|k: LineKey| k.0 >= history)
}

/// What is remembered as a look begins: lines that scrolled away are dropped,
/// all of them after a new layout or when they are too many, and what fired on
/// the line of the cursor when the cursor went to another line.
pub open spec fn prepared(r: RouteView, s: ScreenView) -> RouteView {
    let kept = in_view(
        if reflowed(r, s) {
            Seq::empty()
        } else {
            r.seen
        },
        s.history,
    );
    let place = s.history + s.cursor_row;
    let moved = s.live && r.row != place;
    RouteView {
        seen: if kept.len() > SEEN_CAP {
            Seq::empty()
        } else {
            kept
        },
        row: if moved {
            place as i64
        } else {
            r.row
        },
        fired: if moved {
            Seq::empty()
        } else {
            r.fired
        },
        dims: Some(size_of_screen(s)),
        once: r.once,
    }
}

/// Whether a line is the live line of the cursor.
pub open spec fn is_cursor_line(s: ScreenView, i: int) -> bool {
    s.live && i == s.cursor_row
}

pub open spec fn line_key(s: ScreenView, hashes: Seq<u64>, i: int) -> LineKey {
    ((s.history + i) as i64, hashes[i], i < s.cursor_row)
}

/// The lines remembered once the first `n` lines were looked at.
pub open spec fn seen_after(
    seen: Seq<LineKey>,
    s: ScreenView,
    hashes: Seq<u64>,
    n: nat,
) -> Seq<LineKey>
    decreases n,
{
    if n == 0 {
        seen
    } else {
        let before = seen_after(seen, s, hashes, (n - 1) as nat);
        let i = n - 1;
        if s.lines[i].len() == 0 || is_cursor_line(s, i) {
            before
        } else {
            added(before, line_key(s, hashes, i))
        }
    }
}

/// Whether rules are tried on a line: always on the live line of the cursor, on
/// another if it is new and the screen was not laid out anew.
pub open spec fn is_line_due(
    seen: Seq<LineKey>,
    anew: bool,
    s: ScreenView,
    hashes: Seq<u64>,
    i: int,
) -> bool {
    s.lines[i].len() > 0 && (is_cursor_line(s, i) || (!anew && !seen_after(
        seen,
        s,
        hashes,
        i as nat,
    ).contains(line_key(s, hashes, i))))
}

/// The lines that rules are tried on.
pub open spec fn lines_due(
    seen: Seq<LineKey>,
    anew: bool,
    s: ScreenView,
    hashes: Seq<u64>,
) -> Seq<bool> {
    Seq::new(s.lines.len(), |i: int| is_line_due(seen, anew, s, hashes, i))
}

/// What is done for matches, one after the other, and what fired on the line of
/// the cursor then.
pub open spec fn fired_for(
    fired: Seq<(u64, u64)>,
    rule: RuleView,
    on_cursor: bool,
    hits: Seq<(MatchView, u64)>,
    feed: Seq<Seq<char>>,
) -> (Seq<(u64, u64)>, Seq<ResolvedView>)
    decreases hits.len(),
{
    if hits.len() == 0 {
        (fired, Seq::empty())
    } else {
        let key = (rule.id, hits[0].1);
        if on_cursor && fired.contains(key) {
            fired_for(fired, rule, on_cursor, hits.skip(1), feed)
        } else {
            let now = if on_cursor {
                fired.push(key)
            } else {
                fired
            };
            let action = resolution(rule.action, hits[0].0.groups, feed);
            if rule.once {
                (now, seq![action])
            } else {
                let (last, more) = fired_for(now, rule, on_cursor, hits.skip(1), feed);
                (last, seq![action] + more)
            }
        }
    }
}

/// Whether a rule is tried on a line: highlights are not actions, rules that
/// fire at once are for the line of the cursor and others for the others, and
/// one that fires once did not yet.
pub open spec fn is_tried(r: RouteView, rule: RuleView, on_cursor: bool) -> bool {
    &&& !(rule.action is Highlight)
    &&& rule.instant == on_cursor
    &&& !(rule.once && r.once.contains(rule.id))
}

/// What a rule does on a line, and what is remembered then.
pub open spec fn rule_fired(
    r: RouteView,
    rule: RuleView,
    on_cursor: bool,
    hits: Seq<(MatchView, u64)>,
    feed: Seq<Seq<char>>,
) -> (RouteView, Seq<ResolvedView>) {
    if !is_tried(r, rule, on_cursor) {
        (r, Seq::empty())
    } else {
        let (fired, actions) = fired_for(r.fired, rule, on_cursor, hits, feed);
        (
            RouteView {
                fired,
                once: if rule.once && actions.len() > 0 {
                    added(r.once, rule.id)
                } else {
                    r.once
                },
                ..r
            },
            actions,
        )
    }
}

/// The matches of a rule on a line, with given hashes.
pub open spec fn hits_with(rule: RuleView, text: Seq<char>, hashes: Seq<u64>) -> Seq<
    (MatchView, u64),
> {
    Seq::new(
        all_matches(rule.regex, text).len(),
        |k: int| (all_matches(rule.regex, text)[k], hashes[k]),
    )
}

/// The part of a line that is looked at.
pub open spec fn scanned_text(line: Seq<char>) -> Seq<char> {
    first_chars(line, LINE_SCAN_CAP as int)
}

/// What the first `n` rules do on a line. The hashes of what a rule matched are
/// given by its index.
pub open spec fn rules_fired(
    r: RouteView,
    rules: Seq<RuleView>,
    n: nat,
    s: ScreenView,
    line: int,
    hashes: Map<(int, int), Seq<u64>>,
) -> (RouteView, Seq<ResolvedView>)
    decreases n,
{
    if n == 0 {
        (r, Seq::empty())
    } else {
        let (before, actions) = rules_fired(r, rules, (n - 1) as nat, s, line, hashes);
        let (after, more) = rule_fired(
            before,
            rules[n - 1],
            is_cursor_line(s, line),
            hits_with(rules[n - 1], scanned_text(s.lines[line]), hashes[(line, n - 1)]),
            s.feed,
        );
        (after, actions + more)
    }
}

/// What the rules do on the first `n` lines.
pub open spec fn lines_fired(
    r: RouteView,
    rules: Seq<RuleView>,
    s: ScreenView,
    due: Seq<bool>,
    n: nat,
    hashes: Map<(int, int), Seq<u64>>,
) -> (RouteView, Seq<ResolvedView>)
    decreases n,
{
    if n == 0 {
        (r, Seq::empty())
    } else {
        let (before, actions) = lines_fired(r, rules, s, due, (n - 1) as nat, hashes);
        if due[n - 1] {
            let (after, more) = rules_fired(before, rules, rules.len(), s, n - 1, hashes);
            (after, actions + more)
        } else {
            (before, actions)
        }
    }
}

/// What is remembered as rules are tried: what [`prepared`] leaves, with the
/// lines of the screen.
pub open spec fn noted(r: RouteView, s: ScreenView, hashes: Seq<u64>) -> RouteView {
    let p = prepared(r, s);
    RouteView { seen: seen_after(p.seen, s, hashes, s.lines.len()), ..p }
}

/// A look at a screen: what is done, and what is remembered then. The hashes of
/// the lines and of what matched are given.
pub open spec fn scanned(
    rules: Seq<RuleView>,
    r: RouteView,
    s: ScreenView,
    line_hashes: Seq<u64>,
    match_hashes: Map<(int, int), Seq<u64>>,
) -> (RouteView, Seq<ResolvedView>) {
    if rules.len() == 0 {
        (r, Seq::empty())
    } else if !s.changed {
        (RouteView { dims: Some(size_of_screen(s)), ..r }, Seq::empty())
    } else {
        lines_fired(
            noted(r, s, line_hashes),
            rules,
            s,
            lines_due(prepared(r, s).seen, reflowed(r, s), s, line_hashes),
            s.lines.len(),
            match_hashes,
        )
    }
}

/// Whether the pattern of a rule is looked for on a line, once the rules before it
/// did what they do there.
pub open spec fn is_rule_due(
    r: RouteView,
    rules: Seq<RuleView>,
    s: ScreenView,
    line: int,
    hashes: Map<(int, int), Seq<u64>>,
    k: int,
) -> bool {
    is_tried(
        rules_fired(r, rules, k as nat, s, line, hashes).0,
        rules[k],
        is_cursor_line(s, line),
    )
}

/// Whether the pattern of a rule is looked for on a line, once the lines above it
/// were looked at.
pub open spec fn is_looked_for(
    r: RouteView,
    rules: Seq<RuleView>,
    s: ScreenView,
    due: Seq<bool>,
    hashes: Map<(int, int), Seq<u64>>,
    line: int,
    k: int,
) -> bool {
    due[line] && is_rule_due(
        lines_fired(r, rules, s, due, line as nat, hashes).0,
        rules,
        s,
        line,
        hashes,
        k,
    )
}

/// Whether hashes were given for the lines of a screen, as far as they are looked
/// at.
pub open spec fn lines_given(s: ScreenView, hashes: Seq<u64>) -> bool {
    &&& hashes.len() == s.lines.len()
    &&& forall|i: int|
        0 <= i < hashes.len() ==> hash_given(scanned_text(s.lines[i]), #[trigger] hashes[i])
}

/// Whether hashes were given for what matched on the first `n` lines, wherever the
/// pattern of a rule is looked for.
pub open spec fn matches_given(
    r: RouteView,
    rules: Seq<RuleView>,
    s: ScreenView,
    due: Seq<bool>,
    hashes: Map<(int, int), Seq<u64>>,
    n: int,
) -> bool {
    forall|line: int, k: int|
        0 <= line < n && 0 <= k < rules.len() && #[trigger] is_looked_for(
            r,
            rules,
            s,
            due,
            hashes,
            line,
            k,
        ) ==> hashes_given(rules[k].regex, scanned_text(s.lines[line]), hashes[(line, k)])
}

/// Whether the hashes of a look were given for what the screen shows: those of its
/// lines, and those of what matched.
pub open spec fn look_given(
    rules: Seq<RuleView>,
    r: RouteView,
    s: ScreenView,
    line_hashes: Seq<u64>,
    match_hashes: Map<(int, int), Seq<u64>>,
) -> bool {
    &&& lines_given(s, line_hashes)
    &&& rules.len() > 0 && s.changed ==> matches_given(
        noted(r, s, line_hashes),
        rules,
        s,
        lines_due(prepared(r, s).seen, reflowed(r, s), s, line_hashes),
        match_hashes,
        s.lines.len() as int,
    )
}

// ---------------------------------------------------------------------------
// The rules at work.

fn has_line(seen: &Vec<LineKey>, key: LineKey) -> (found: bool)
    ensures
        found == seen@.contains(key),
{
    let mut i: usize = 0;
    while i < seen.len()
        invariant
            i <= seen@.len(),
            forall|j: int| 0 <= j < i ==> #[trigger] seen@[j] != key,
        decreases seen.len() - i,
    {
        if seen[i].0 == key.0 && seen[i].1 == key.1 && seen[i].2 == key.2 {
            assert(seen@[i as int] == key);
            return true;
        }
        i = i + 1;
    }
    false
}

fn has_pair(fired: &Vec<(u64, u64)>, key: (u64, u64)) -> (found: bool)
    ensures
        found == fired@.contains(key),
{
    let mut i: usize = 0;
    while i < fired.len()
        invariant
            i <= fired@.len(),
            forall|j: int| 0 <= j < i ==> #[trigger] fired@[j] != key,
        decreases fired.len() - i,
    {
        if fired[i].0 == key.0 && fired[i].1 == key.1 {
            assert(fired@[i as int] == key);
            return true;
        }
        i = i + 1;
    }
    false
}

fn has_id(once: &Vec<u64>, id: u64) -> (found: bool)
    ensures
        found == once@.contains(id),
{
    let mut i: usize = 0;
    while i < once.len()
        invariant
            i <= once@.len(),
            forall|j: int| 0 <= j < i ==> #[trigger] once@[j] != id,
        decreases once.len() - i,
    {
        if once[i] == id {
            return true;
        }
        i = i + 1;
    }
    false
}

/// The lines that are still on the screen.
fn keep_in_view(seen: &Vec<LineKey>, history: i64) -> (kept: Vec<LineKey>)
    ensures
        kept@ == in_view(seen@, history as int),
{
    reveal(Seq::filter);
    let mut kept: Vec<LineKey> = Vec::new();
    let ghost keep = |k: LineKey| k.0 >= history as int;
    assert(seen@.take(0) =~= Seq::<LineKey>::empty());
    assert(kept@ =~= seen@.take(0).filter(keep));
    let mut i: usize = 0;
    while i < seen.len()
        invariant
            i <= seen@.len(),
            keep == (|k: LineKey| k.0 >= history as int),
            kept@ == seen@.take(i as int).filter(keep),
        decreases seen.len() - i,
    {
        reveal(Seq::filter);
        assert(seen@.take(i + 1).drop_last() =~= seen@.take(i as int));
        assert(seen@.take(i + 1).last() == seen@[i as int]);
        let key: LineKey = seen[i];
        if key.0 >= history {
            kept.push(key);
        }
        i = i + 1;
    }
    assert(seen@.take(i as int) =~= seen@);
    kept
}

/// The part of a line that is looked at.
fn cut_line(line: &String) -> (text: String)
    ensures
        text@ == scanned_text(line@),
{
    let chars = chars_of(line.as_str());
    if chars.len() > LINE_SCAN_CAP {
        let text = text_between(&chars, 0, LINE_SCAN_CAP);
        assert(text@ =~= line@.take(LINE_SCAN_CAP as int));
        text
    } else {
        line.clone()
    }
}

fn is_blank(line: &String) -> (blank: bool)
    ensures
        blank == (line@.len() == 0),
{
    let chars = chars_of(line.as_str());
    chars.len() == 0
}

impl RouteRecord {
    /// Begins a look at a screen whose cells changed. Returns the lines that
    /// rules are tried on.
    fn note_lines(&mut self, screen: &Screen, hashes: &Vec<u64>) -> (due: Vec<bool>)
        requires
            screen_wf(screen@),
            hashes@.len() == screen@.lines.len(),
        ensures
            final(self).route == old(self).route,
            final(self)@ == noted(old(self)@, screen@, hashes@),
            due@ == lines_due(
                prepared(old(self)@, screen@).seen,
                reflowed(old(self)@, screen@),
                screen@,
                hashes@,
            ),
    {
        let ghost r = self@;
        let ghost s = screen@;
        let size: (usize, usize) = (screen.lines.len(), screen.columns);
        assert(size == size_of_screen(s));
        let anew = match self.dims {
            Some(d) => !(d.0 == size.0 && d.1 == size.1),
            None => true,
        };
        assert(anew == reflowed(r, s));
        self.dims = Some(size);
        if anew {
            self.seen = Vec::new();
            assert(self.seen@ =~= Seq::<LineKey>::empty());
        }
        let kept = keep_in_view(&self.seen, screen.history);
        if kept.len() > SEEN_CAP {
            self.seen = Vec::new();
            assert(self.seen@ =~= Seq::<LineKey>::empty());
        } else {
            self.seen = kept;
        }
        if screen.live {
            let place: i64 = screen.history + screen.cursor_row;
            if self.row != place {
                self.row = place;
                self.fired = Vec::new();
                assert(self.fired@ =~= Seq::<(u64, u64)>::empty());
            }
        }
        let ghost start = self@;
        assert(start =~= prepared(r, s));
        let mut due: Vec<bool> = Vec::new();
        let mut i: usize = 0;
        while i < screen.lines.len()
            invariant
                i <= screen.lines@.len(),
                s == screen@,
                screen_wf(s),
                hashes@.len() == s.lines.len(),
                self.route == old(self).route,
                self@ == (RouteView {
                    seen: seen_after(start.seen, s, hashes@, i as nat),
                    ..start
                }),
                due@.len() == i,
                forall|j: int|
                    0 <= j < i ==> #[trigger] due@[j] == is_line_due(
                        start.seen,
                        anew,
                        s,
                        hashes@,
                        j,
                    ),
            decreases screen.lines.len() - i,
        {
            assert(s.lines[i as int] == screen.lines@[i as int]@);
            let on_cursor = screen.live && i as i64 == screen.cursor_row;
            if is_blank(&screen.lines[i]) {
                due.push(false);
            } else if on_cursor {
                due.push(true);
            } else {
                let key: LineKey = (
                    screen.history + i as i64,
                    hashes[i],
                    (i as i64) < screen.cursor_row,
                );
                assert(key == line_key(s, hashes@, i as int));
                if has_line(&self.seen, key) {
                    due.push(false);
                } else {
                    self.seen.push(key);
                    due.push(!anew);
                }
            }
            i = i + 1;
            assert(self@ =~= (RouteView {
                seen: seen_after(start.seen, s, hashes@, i as nat),
                ..start
            }));
        }
        assert(due@ =~= lines_due(start.seen, anew, s, hashes@));
        due
    }

    fn tries(&self, rule: &Rule, on_cursor: bool) -> (tried: bool)
        ensures
            tried == is_tried(self@, rule@, on_cursor),
    {
        let highlight = match &rule.action {
            TriggerAction::Highlight { .. } => true,
            _ => false,
        };
        !highlight && rule.instant == on_cursor && !(rule.once && has_id(&self.once, rule.id))
    }

    /// Does what a rule does for its matches on a line.
    fn fire_rule(
        &mut self,
        rule: &Rule,
        on_cursor: bool,
        hits: &Vec<Hit>,
        feed: &Vec<String>,
    ) -> (actions: Vec<ResolvedAction>)
        ensures
            final(self).route == old(self).route,
            (final(self)@, resolved_views(actions@)) == rule_fired(
                old(self)@,
                rule@,
                on_cursor,
                hit_views(hits@),
                texts(feed@),
            ),
    {
        let mut actions: Vec<ResolvedAction> = Vec::new();
        if !self.tries(rule, on_cursor) {
            assert(resolved_views(actions@) =~= Seq::<ResolvedView>::empty());
            return actions;
        }
        let ghost r = self@;
        let ghost all = hit_views(hits@);
        let ghost f = texts(feed@);
        let ghost goal = fired_for(r.fired, rule@, on_cursor, all, f);
        assert(all.skip(0) =~= all);
        assert(resolved_views(actions@) + goal.1 =~= goal.1);
        let mut i: usize = 0;
        while i < hits.len()
            invariant_except_break
                i <= hits@.len(),
                all == hit_views(hits@),
                f == texts(feed@),
                self.route == old(self).route,
                self@ == (RouteView { fired: self@.fired, ..r }),
                ({
                    let rest = fired_for(self@.fired, rule@, on_cursor, all.skip(i as int), f);
                    goal == (rest.0, resolved_views(actions@) + rest.1)
                }),
                rule.once ==> actions@.len() == 0,
            ensures
                self.route == old(self).route,
                self@ == (RouteView { fired: self@.fired, ..r }),
                goal == (self@.fired, resolved_views(actions@)),
            decreases hits.len() - i,
        {
            let hit = &hits[i];
            assert(all.skip(i as int)[0] == (hit.found@, hit.hash));
            assert(all.skip(i as int).skip(1) =~= all.skip(i + 1));
            let key: (u64, u64) = (rule.id, hit.hash);
            let known = on_cursor && has_pair(&self.fired, key);
            if !known {
                if on_cursor {
                    self.fired.push(key);
                }
                let ghost before = resolved_views(actions@);
                let action = resolve(&rule.action, &hit.found.groups, feed);
                actions.push(action);
                assert(resolved_views(actions@) =~= before.push(action@));
                if rule.once {
                    assert(before + seq![action@] =~= resolved_views(actions@));
                    break;
                }
                proof {
                    let rest = fired_for(self@.fired, rule@, on_cursor, all.skip(i + 1), f);
                    assert(before + (seq![action@] + rest.1) =~= resolved_views(actions@) + rest.1);
                }
            }
            i = i + 1;
            if i == hits.len() {
                assert(all.skip(i as int) =~= Seq::<(MatchView, u64)>::empty());
                assert(resolved_views(actions@) + Seq::<ResolvedView>::empty() =~= resolved_views(
                    actions@,
                ));
            }
        }
        if rule.once && actions.len() > 0 {
            self.once.push(rule.id);
        }
        actions
    }
}

/// Rules and what is remembered of each terminal.
pub struct Triggers {
    rules: Vec<Rule>,
    routes: Vec<RouteRecord>,
}

spec fn route_in(routes: Seq<RouteRecord>, route: usize) -> RouteView
    decreases routes.len(),
{
    if routes.len() == 0 {
        unknown_route()
    } else if routes.last().route == route {
        routes.last()@
    } else {
        route_in(routes.drop_last(), route)
    }
}

/// The rules that are made of settings, but for their ids: those whose pattern
/// is accepted.
pub open spec fn accepted_rules(config: Seq<RuleConfig>) -> Seq<(Seq<char>, bool, bool, ActionView)>
    decreases config.len(),
{
    if config.len() == 0 {
        Seq::empty()
    } else {
        let before = accepted_rules(config.drop_last());
        let c = config.last();
        if onig_accepts(c.regex@) {
            before.push((c.regex@, c.instant, c.once, c.action@))
        } else {
            before
        }
    }
}

pub open spec fn without_ids(rules: Seq<RuleView>) -> Seq<(Seq<char>, bool, bool, ActionView)> {
    Seq::new(
        rules.len(),
        |i: int| (rules[i].regex, rules[i].instant, rules[i].once, rules[i].action),
    )
}

/// Whether each rule has the id that was given for its pattern and its action.
pub open spec fn ids_given(rules: Seq<RuleView>) -> bool {
    forall|i: int|
        0 <= i < rules.len() ==> id_given(
            (#[trigger] rules[i]).regex,
            rules[i].action,
            rules[i].id,
        )
}

/// The rules that are made of settings: those whose pattern is accepted.
fn compile(config: Vec<RuleConfig>) -> (rules: Vec<Rule>)
    ensures
        without_ids(rule_views(rules@)) == accepted_rules(config@),
        ids_given(rule_views(rules@)),
{
    let ghost held = config@;
    let mut rules: Vec<Rule> = Vec::new();
    assert(held.take(0) =~= Seq::<RuleConfig>::empty());
    assert(without_ids(rule_views(rules@)) =~= accepted_rules(held.take(0)));
    for c in it: config
        invariant
            it.seq() == held,
            without_ids(rule_views(rules@)) == accepted_rules(held.take(it.index() as int)),
            ids_given(rule_views(rules@)),
    {
        let ghost k = it.index() as int;
        assert(c == held[k]);
        assert(held.take(k + 1).drop_last() =~= held.take(k));
        assert(held.take(k + 1).last() == c);
        let ghost before = without_ids(rule_views(rules@));
        if accepts(c.regex.as_str()) {
            let id: u64 = rule_id(c.regex.as_str(), &c.action);
            assert(id_given(c.regex@, c.action@, id));
            let ghost earlier = rule_views(rules@);
            let rule = Rule {
                regex: c.regex,
                instant: c.instant,
                once: c.once,
                action: c.action,
                id,
            };
            rules.push(rule);
            assert(rule_views(rules@) =~= earlier.push(rule@));
            assert(without_ids(rule_views(rules@)) =~= before.push(
                (rule.regex@, rule.instant, rule.once, rule.action@),
            ));
        }
    }
    assert(held.take(held.len() as int) =~= held);
    rules
}

impl Triggers {
    /// The rules.
    pub closed spec fn rule_list(&self) -> Seq<RuleView> {
        rule_views(self.rules@)
    }

    /// What is remembered of a terminal.
    pub closed spec fn record(&self, route: usize) -> RouteView {
        route_in(self.routes@, route)
    }

    /// Makes rules of settings. Patterns that are not accepted are left out.
    pub fn new(config: Vec<RuleConfig>) -> (triggers: Triggers)
        ensures
            without_ids(triggers.rule_list()) == accepted_rules(config@),
            ids_given(triggers.rule_list()),
            forall|route: usize| #[trigger] triggers.record(route) == unknown_route(),
    {
        Triggers { rules: compile(config), routes: Vec::new() }
    }

    /// Makes rules of changed settings. What is remembered stays: lines that are
    /// on the screen must not fire anew for an edit of the settings.
    pub fn rebuild(&mut self, config: Vec<RuleConfig>)
        ensures
            without_ids(final(self).rule_list()) == accepted_rules(config@),
            ids_given(final(self).rule_list()),
            forall|route: usize| #[trigger]
                final(self).record(route) == old(self).record(route),
    {
        self.rules = compile(config);
    }

    pub fn is_empty(&self) -> (empty: bool)
        ensures
            empty == (self.rule_list().len() == 0),
    {
        self.rules.len() == 0
    }

    pub fn rules(&self) -> (rules: &Vec<Rule>)
        ensures
            rule_views(rules@) == self.rule_list(),
    {
        &self.rules
    }

    /// Whether a rule highlights.
    pub open spec fn highlights_any(rules: Seq<RuleView>) -> bool {
        exists|i: int| 0 <= i < rules.len() && (#[trigger] rules[i]).action is Highlight
    }

    fn take(&mut self, route: usize) -> (record: RouteRecord)
        ensures
            record.route == route,
            record@ == old(self).record(route),
            final(self).rules == old(self).rules,
            forall|r: usize| r != route ==> #[trigger] final(self).record(r) == old(self).record(r),
            final(self).routes@.len() < old(self).routes@.len() || final(self).routes@
                == old(self).routes@,
    {
        let mut i: usize = self.routes.len();
        assert(self.routes@.take(i as int) =~= self.routes@);
        while i > 0
            invariant
                i <= self.routes@.len(),
                *self == *old(self),
                self.record(route) == route_in(self.routes@.take(i as int), route),
            decreases i,
        {
            assert(self.routes@.take(i as int).drop_last() =~= self.routes@.take(i - 1));
            if self.routes[i - 1].route == route {
                let record = self.routes.remove(i - 1);
                proof {
                    let before = old(self).routes@;
                    assert(before.take(i as int).last() == before[i - 1]);
                    assert forall|r: usize| r != route implies #[trigger] self.record(r) == old(
                        self,
                    ).record(r) by {
                        lemma_route_without(before, i - 1, r);
                    }
                }
                return record;
            }
            i = i - 1;
        }
        let record = RouteRecord {
            route,
            seen: Vec::new(),
            row: 0,
            fired: Vec::new(),
            dims: None,
            once: Vec::new(),
        };
        assert(record@ =~= unknown_route());
        record
    }

    fn put(&mut self, record: RouteRecord)
        ensures
            final(self).rules == old(self).rules,
            forall|r: usize| #[trigger]
                final(self).record(r) == if r == record.route {
                    record@
                } else {
                    old(self).record(r)
                },
    {
        self.routes.push(record);
        assert(self.routes@.drop_last() =~= old(self).routes@);
    }

    /// Looks at a screen, the hashes of its lines being given. Returns the lines
    /// that rules are tried on, or nothing where none are.
    pub fn look(&mut self, route: usize, screen: &Screen, hashes: &Vec<u64>) -> (due: Option<
        Vec<bool>,
    >)
        requires
            screen_wf(screen@),
            hashes@.len() == screen@.lines.len(),
        ensures
            final(self).rule_list() == old(self).rule_list(),
            forall|r: usize|
                r != route ==> #[trigger] final(self).record(r) == old(self).record(r),
            ({
                let before = old(self).record(route);
                let after = final(self).record(route);
                if old(self).rule_list().len() == 0 {
                    due is None && after == before
                } else if !screen.changed {
                    due is None && after == (RouteView {
                        dims: Some(size_of_screen(screen@)),
                        ..before
                    })
                } else {
                    due is Some && due->0@ == lines_due(
                        prepared(before, screen@).seen,
                        reflowed(before, screen@),
                        screen@,
                        hashes@,
                    ) && after == noted(before, screen@, hashes@)
                }
            }),
    {
        if self.rules.len() == 0 {
            return None;
        }
        let mut record = self.take(route);
        if !screen.changed {
            record.dims = Some((screen.lines.len(), screen.columns));
            self.put(record);
            return None;
        }
        let due = record.note_lines(screen, hashes);
        self.put(record);
        Some(due)
    }

    /// Does what a rule does for its matches on a line.
    pub fn fire(
        &mut self,
        route: usize,
        rule: usize,
        on_cursor: bool,
        hits: &Vec<Hit>,
        feed: &Vec<String>,
    ) -> (actions: Vec<ResolvedAction>)
        requires
            rule < old(self).rule_list().len(),
        ensures
            final(self).rule_list() == old(self).rule_list(),
            forall|r: usize|
                r != route ==> #[trigger] final(self).record(r) == old(self).record(r),
            (final(self).record(route), resolved_views(actions@)) == rule_fired(
                old(self).record(route),
                old(self).rule_list()[rule as int],
                on_cursor,
                hit_views(hits@),
                texts(feed@),
            ),
    {
        let mut record = self.take(route);
        let actions = record.fire_rule(&self.rules[rule], on_cursor, hits, feed);
        self.put(record);
        actions
    }

    /// Whether a rule is tried on a line.
    fn tries(&self, route: usize, rule: usize, on_cursor: bool) -> (tried: bool)
        requires
            rule < self.rule_list().len(),
        ensures
            tried == is_tried(self.record(route), self.rule_list()[rule as int], on_cursor),
    {
        let r = &self.rules[rule];
        assert(self.rule_list()[rule as int] == r@);
        let mut i: usize = self.routes.len();
        assert(self.routes@.take(i as int) =~= self.routes@);
        while i > 0
            invariant
                i <= self.routes@.len(),
                self.record(route) == route_in(self.routes@.take(i as int), route),
                r@ == self.rule_list()[rule as int],
            decreases i,
        {
            assert(self.routes@.take(i as int).drop_last() =~= self.routes@.take(i - 1));
            assert(self.routes@.take(i as int).last() == self.routes@[i - 1]);
            if self.routes[i - 1].route == route {
                return self.routes[i - 1].tries(r, on_cursor);
            }
            i = i - 1;
        }
        let highlight = match &r.action {
            TriggerAction::Highlight { .. } => true,
            _ => false,
        };
        !highlight && r.instant == on_cursor
    }

    /// Looks at a screen and returns what is to be done: what [`scanned`] says for
    /// the hashes that were given for its lines and for what matched.
    pub fn scan(&mut self, route: usize, screen: &Screen) -> (actions: Vec<ResolvedAction>)
        requires
            screen_wf(screen@),
        ensures
            final(self).rule_list() == old(self).rule_list(),
            forall|r: usize|
                r != route ==> #[trigger] final(self).record(r) == old(self).record(r),
            exists|line_hashes: Seq<u64>, match_hashes: Map<(int, int), Seq<u64>>|
                look_given(
                    old(self).rule_list(),
                    old(self).record(route),
                    screen@,
                    line_hashes,
                    match_hashes,
                ) && (final(self).record(route), resolved_views(actions@)) == #[trigger] scanned(
                    old(self).rule_list(),
                    old(self).record(route),
                    screen@,
                    line_hashes,
                    match_hashes,
                ),
    {
        let ghost s = screen@;
        let ghost rules = self.rule_list();
        let ghost start = self.record(route);
        let mut hashes: Vec<u64> = Vec::new();
        let mut k: usize = 0;
        while k < screen.lines.len()
            invariant
                k <= screen.lines@.len(),
                s == screen@,
                hashes@.len() == k,
                forall|n: int|
                    0 <= n < k ==> hash_given(scanned_text(s.lines[n]), #[trigger] hashes@[n]),
            decreases screen.lines.len() - k,
        {
            let text = cut_line(&screen.lines[k]);
            let hash: u64 = hash_text(text.as_str());
            assert(s.lines[k as int] == screen.lines@[k as int]@);
            assert(hash_given(text@, hash));
            hashes.push(hash);
            k = k + 1;
        }
        assert(lines_given(s, hashes@));
        let mut actions: Vec<ResolvedAction> = Vec::new();
        assert(resolved_views(actions@) =~= Seq::<ResolvedView>::empty());
        let ghost mut found = Map::<(int, int), Seq<u64>>::empty();
        let due = match self.look(route, screen, &hashes) {
            Some(due) => due,
            None => {
                assert(look_given(rules, start, s, hashes@, found));
                assert((self.record(route), resolved_views(actions@)) == scanned(
                    rules,
                    start,
                    s,
                    hashes@,
                    found,
                ));
                return actions;
            },
        };
        let ghost noted_ = self.record(route);
        let mut i: usize = 0;
        while i < screen.lines.len()
            invariant
                i <= screen.lines@.len(),
                s == screen@,
                screen_wf(s),
                self.rule_list() == rules,
                rules == old(self).rule_list(),
                due@.len() == s.lines.len(),
                forall|r: usize| r != route ==> #[trigger] self.record(r) == old(self).record(r),
                (self.record(route), resolved_views(actions@)) == lines_fired(
                    noted_,
                    rules,
                    s,
                    due@,
                    i as nat,
                    found,
                ),
                matches_given(noted_, rules, s, due@, found, i as int),
            decreases screen.lines.len() - i,
        {
            assert(s.lines[i as int] == screen.lines@[i as int]@);
            if due[i] {
                let on_cursor = screen.live && i as i64 == screen.cursor_row;
                let text = cut_line(&screen.lines[i]);
                let ghost before = self.record(route);
                let ghost earlier = resolved_views(actions@);
                let ghost base = found;
                let mut j: usize = 0;
                assert(earlier + Seq::<ResolvedView>::empty() =~= earlier);
                while j < self.rules.len()
                    invariant
                        j <= self.rules@.len(),
                        i < s.lines.len(),
                        s == screen@,
                        self.rule_list() == rules,
                        rules.len() == self.rules@.len(),
                        on_cursor == is_cursor_line(s, i as int),
                        text@ == scanned_text(s.lines[i as int]),
                        forall|r: usize|
                            r != route ==> #[trigger] self.record(r) == old(self).record(r),
                        forall|a: int, b: int|
                            a != i ==> #[trigger] found[(a, b)] == base[(a, b)],
                        ({
                            let (r, more) = rules_fired(before, rules, j as nat, s, i as int, found);
                            (self.record(route), resolved_views(actions@)) == (r, earlier + more)
                        }),
                        forall|b: int|
                            0 <= b < j && #[trigger] is_rule_due(
                                before,
                                rules,
                                s,
                                i as int,
                                found,
                                b,
                            ) ==> hashes_given(rules[b].regex, text@, found[(i as int, b)]),
                    decreases self.rules@.len() - j,
                {
                    let ghost so_far = resolved_views(actions@);
                    let ghost prior = found;
                    assert(rules[j as int] == self.rules@[j as int]@);
                    if !self.tries(route, j, on_cursor) {
                        proof {
                            let part = rules_fired(before, rules, j as nat, s, i as int, found).1;
                            assert(part + Seq::<ResolvedView>::empty() =~= part);
                        }
                        j = j + 1;
                        continue;
                    }
                    let hits = hits_of(self.rules[j].regex.as_str(), text.as_str());
                    let mut more = self.fire(route, j, on_cursor, &hits, &screen.feed);
                    proof {
                        let own = hit_hashes(hits@);
                        found = found.insert((i as int, j as int), own);
                        let all = all_matches(rules[j as int].regex, text@);
                        assert(hit_matches(hit_views(hits@)).len() == all.len());
                        assert(hit_views(hits@) =~= hits_with(rules[j as int], text@, own)) by {
                            assert forall|n: int| 0 <= n < hits@.len() implies hit_views(hits@)[n]
                                == hits_with(rules[j as int], text@, own)[n] by {
                                assert(hit_matches(hit_views(hits@))[n] == all[n]);
                            }
                        }
                        lemma_rules_same(before, rules, j as nat, s, i as int, prior, found);
                        assert forall|b: int|
                            0 <= b < j + 1 && #[trigger] is_rule_due(
                                before,
                                rules,
                                s,
                                i as int,
                                found,
                                b,
                            ) implies hashes_given(
                            rules[b].regex,
                            text@,
                            found[(i as int, b)],
                        ) by {
                            lemma_rules_same(before, rules, b as nat, s, i as int, prior, found);
                            if b < j {
                                assert(is_rule_due(before, rules, s, i as int, prior, b));
                            }
                        }
                    }
                    let ghost added_ = resolved_views(more@);
                    let ghost grown = actions@;
                    actions.append(&mut more);
                    assert(resolved_views(actions@) =~= so_far + added_);
                    proof {
                        let part = rules_fired(before, rules, j as nat, s, i as int, found).1;
                        assert(earlier + (part + added_) =~= (earlier + part) + added_);
                    }
                    j = j + 1;
                }
                proof {
                    lemma_lines_same(noted_, rules, s, due@, i as nat, base, found);
                    lemma_given_grows(noted_, rules, s, due@, base, found, i as int);
                }
            } else {
                assert(matches_given(noted_, rules, s, due@, found, i + 1));
            }
            i = i + 1;
        }
        assert(look_given(rules, start, s, hashes@, found));
        assert((self.record(route), resolved_views(actions@)) == scanned(
            rules,
            start,
            s,
            hashes@,
            found,
        ));
        actions
    }

    /// Drops what is remembered of a terminal that is gone.
    pub fn forget_route(&mut self, route: usize)
        ensures
            final(self).rule_list() == old(self).rule_list(),
            forall|r: usize| #[trigger]
                final(self).record(r) == if r == route {
                    unknown_route()
                } else {
                    old(self).record(r)
                },
    {
        let mut i: usize = self.routes.len();
        assert(self.routes@.skip(i as int) =~= Seq::<RouteRecord>::empty());
        while i > 0
            invariant
                i <= self.routes@.len(),
                self.rules == old(self).rules,
                forall|k: int| i <= k < self.routes@.len() ==> (#[trigger] self.routes@[k]).route
                    != route,
                forall|r: usize| r != route ==> #[trigger] self.record(r) == old(self).record(r),
            decreases i,
        {
            i = i - 1;
            if self.routes[i].route == route {
                let ghost before = self.routes@;
                let ghost prior = *self;
                let _ = self.routes.remove(i);
                proof {
                    assert forall|r: usize| r != route implies #[trigger] self.record(r) == old(
                        self,
                    ).record(r) by {
                        assert(prior.record(r) == old(self).record(r));
                        lemma_route_without(before, i as int, r);
                    }
                    assert forall|k: int| i <= k < self.routes@.len() implies (
                    #[trigger] self.routes@[k]).route != route by {
                        assert(self.routes@[k] == before[k + 1]);
                    }
                }
            }
        }
        proof {
            lemma_route_absent(self.routes@, route);
        }
    }

    /// Lets rules that fire once fire again, and rules fire again on the line of
    /// the cursor. Lines that the cursor has left stay remembered.
    pub fn reset(&mut self)
        ensures
            final(self).rule_list() == old(self).rule_list(),
            forall|r: usize| #[trigger] final(self).record(r) == rearmed(old(self).record(r)),
    {
        let mut i: usize = 0;
        while i < self.routes.len()
            invariant
                i <= self.routes@.len(),
                self.rules == old(self).rules,
                self.routes@.len() == old(self).routes@.len(),
                forall|k: int|
                    i <= k < self.routes@.len() ==> #[trigger] self.routes@[k]
                        == old(self).routes@[k],
                forall|k: int|
                    0 <= k < i ==> (#[trigger] self.routes@[k]).route == old(self).routes@[k].route
                        && self.routes@[k]@ == rearmed(old(self).routes@[k]@),
            decreases self.routes@.len() - i,
        {
            let record = self.routes.remove(i);
            let fresh = RouteRecord {
                route: record.route,
                seen: keep_finalized(&record.seen),
                row: 0,
                fired: Vec::new(),
                dims: record.dims,
                once: Vec::new(),
            };
            assert(fresh@ =~= rearmed(record@));
            self.routes.insert(i, fresh);
            i = i + 1;
        }
        proof {
            assert forall|r: usize| #[trigger] self.record(r) == rearmed(
                old(self).record(r),
            ) by {
                lemma_rearmed(old(self).routes@, self.routes@, r);
            }
        }
    }
}

/// What is remembered of a terminal whose rules may fire again.
pub open spec fn rearmed(r: RouteView) -> RouteView {
    RouteView {
        seen: r.seen.filter(|k: LineKey| k.2),
        row: 0,
        fired: Seq::empty(),
        dims: r.dims,
        once: Seq::empty(),
    }
}

fn keep_finalized(seen: &Vec<LineKey>) -> (kept: Vec<LineKey>)
    ensures
        kept@ == seen@.filter(|k: LineKey| k.2),
{
    reveal(Seq::filter);
    let mut kept: Vec<LineKey> = Vec::new();
    let ghost keep = |k: LineKey| k.2;
    assert(seen@.take(0) =~= Seq::<LineKey>::empty());
    assert(kept@ =~= seen@.take(0).filter(keep));
    let mut i: usize = 0;
    while i < seen.len()
        invariant
            i <= seen@.len(),
            keep == (|k: LineKey| k.2),
            kept@ == seen@.take(i as int).filter(keep),
        decreases seen.len() - i,
    {
        reveal(Seq::filter);
        assert(seen@.take(i + 1).drop_last() =~= seen@.take(i as int));
        assert(seen@.take(i + 1).last() == seen@[i as int]);
        let key: LineKey = seen[i];
        if key.2 {
            kept.push(key);
        }
        i = i + 1;
    }
    assert(seen@.take(i as int) =~= seen@);
    kept
}

proof fn lemma_rearmed(before: Seq<RouteRecord>, after: Seq<RouteRecord>, route: usize)
    requires
        before.len() == after.len(),
        forall|k: int|
            0 <= k < after.len() ==> (#[trigger] after[k]).route == before[k].route && after[k]@
                == rearmed(before[k]@),
    ensures
        route_in(after, route) == rearmed(route_in(before, route)),
    decreases after.len(),
{
    reveal(Seq::filter);
    if after.len() == 0 {
        assert(route_in(after, route) =~= rearmed(route_in(before, route)));
    } else {
        assert(after.last() == after[after.len() - 1]);
        lemma_rearmed(before.drop_last(), after.drop_last(), route);
    }
}

proof fn lemma_route_without(routes: Seq<RouteRecord>, i: int, route: usize)
    requires
        0 <= i < routes.len(),
        routes[i].route != route,
    ensures
        route_in(routes.remove(i), route) == route_in(routes, route),
    decreases routes.len(),
{
    if i == routes.len() - 1 {
        assert(routes.remove(i) =~= routes.drop_last());
    } else {
        assert(routes.remove(i).last() == routes.last());
        assert(routes.remove(i).drop_last() =~= routes.drop_last().remove(i));
        assert(routes.drop_last()[i] == routes[i]);
        lemma_route_without(routes.drop_last(), i, route);
    }
}

proof fn lemma_route_absent(routes: Seq<RouteRecord>, route: usize)
    requires
        forall|k: int| 0 <= k < routes.len() ==> (#[trigger] routes[k]).route != route,
    ensures
        route_in(routes, route) == unknown_route(),
    decreases routes.len(),
{
    if routes.len() > 0 {
        assert(routes[routes.len() - 1].route != route);
        assert forall|k: int| 0 <= k < routes.drop_last().len() implies (
        #[trigger] routes.drop_last()[k]).route != route by {
            assert(routes.drop_last()[k] == routes[k]);
        }
        lemma_route_absent(routes.drop_last(), route);
    }
}

proof fn lemma_rules_same(
    r: RouteView,
    rules: Seq<RuleView>,
    n: nat,
    s: ScreenView,
    line: int,
    a: Map<(int, int), Seq<u64>>,
    b: Map<(int, int), Seq<u64>>,
)
    requires
        forall|j: int| 0 <= j < n ==> #[trigger] a[(line, j)] == b[(line, j)],
    ensures
        rules_fired(r, rules, n, s, line, a) == rules_fired(r, rules, n, s, line, b),
    decreases n,
{
    if n > 0 {
        lemma_rules_same(r, rules, (n - 1) as nat, s, line, a, b);
        assert(a[(line, n - 1)] == b[(line, n - 1)]);
    }
}

proof fn lemma_lines_same(
    r: RouteView,
    rules: Seq<RuleView>,
    s: ScreenView,
    due: Seq<bool>,
    n: nat,
    a: Map<(int, int), Seq<u64>>,
    b: Map<(int, int), Seq<u64>>,
)
    requires
        forall|i: int, j: int| i != n ==> #[trigger] a[(i, j)] == b[(i, j)],
    ensures
        lines_fired(r, rules, s, due, n, a) == lines_fired(r, rules, s, due, n, b),
{
    lemma_lines_same_below(r, rules, s, due, n, n, a, b);
}

proof fn lemma_lines_same_below(
    r: RouteView,
    rules: Seq<RuleView>,
    s: ScreenView,
    due: Seq<bool>,
    n: nat,
    limit: nat,
    a: Map<(int, int), Seq<u64>>,
    b: Map<(int, int), Seq<u64>>,
)
    requires
        n <= limit,
        forall|i: int, j: int| i != limit ==> #[trigger] a[(i, j)] == b[(i, j)],
    ensures
        lines_fired(r, rules, s, due, n, a) == lines_fired(r, rules, s, due, n, b),
    decreases n,
{
    if n > 0 {
        lemma_lines_same_below(r, rules, s, due, (n - 1) as nat, limit, a, b);
        let before = lines_fired(r, rules, s, due, (n - 1) as nat, a).0;
        lemma_rules_same(before, rules, rules.len(), s, n - 1, a, b);
    }
}

/// The hashes that were given stay so as those of one more line are.
proof fn lemma_given_grows(
    r: RouteView,
    rules: Seq<RuleView>,
    s: ScreenView,
    due: Seq<bool>,
    a: Map<(int, int), Seq<u64>>,
    b: Map<(int, int), Seq<u64>>,
    n: int,
)
    requires
        0 <= n,
        matches_given(r, rules, s, due, a, n),
        forall|i: int, j: int| i != n ==> #[trigger] a[(i, j)] == b[(i, j)],
        forall|k: int|
            0 <= k < rules.len() && #[trigger] is_rule_due(
                lines_fired(r, rules, s, due, n as nat, b).0,
                rules,
                s,
                n,
                b,
                k,
            ) ==> hashes_given(rules[k].regex, scanned_text(s.lines[n]), b[(n, k)]),
    ensures
        matches_given(r, rules, s, due, b, n + 1),
{
    assert forall|line: int, k: int|
        0 <= line < n + 1 && 0 <= k < rules.len() && #[trigger] is_looked_for(
            r,
            rules,
            s,
            due,
            b,
            line,
            k,
        ) implies hashes_given(
        rules[k].regex,
        scanned_text(s.lines[line]),
        b[(line, k)],
    ) by {
        let here = lines_fired(r, rules, s, due, line as nat, b).0;
        if line < n {
            lemma_lines_same_below(r, rules, s, due, line as nat, n as nat, a, b);
            lemma_rules_same(here, rules, k as nat, s, line, a, b);
            assert(is_looked_for(r, rules, s, due, a, line, k));
            assert(a[(line, k)] == b[(line, k)]);
        } else {
            assert(is_rule_due(here, rules, s, n, b, k));
        }
    }
}

// ---------------------------------------------------------------------------
// Highlights.

/// A stretch of a line that is highlighted.
#[derive(Clone, Copy, Debug)]
pub struct Highlighted {
    pub line: i32,
    pub start: usize,
    pub end: usize,
    pub color: [u8; 4],
}

/// The mathematical value of a [`Highlighted`].
pub struct HighlightView {
    pub line: int,
    pub start: int,
    pub end: int,
    pub color: [u8; 4],
}

impl View for Highlighted {
    type V = HighlightView;

    open spec fn view(&self) -> HighlightView {
        HighlightView {
            line: self.line as int,
            start: self.start as int,
            end: self.end as int,
            color: self.color,
        }
    }
}

pub open spec fn highlight_views(all: Seq<Highlighted>) -> Seq<HighlightView> {
    Seq::new(all.len(), |i: int| all[i]@)
}

/// What a rule highlights on a line: its matches, as many as may be.
pub open spec fn rule_highlights(rule: RuleView, line: int, text: Seq<char>) -> Seq<HighlightView> {
    match rule.action {
        ActionView::Highlight { color } => {
            let all = all_matches(rule.regex, text);
            Seq::new(
                if all.len() > HIGHLIGHTS_PER_LINE {
                    HIGHLIGHTS_PER_LINE as nat
                } else {
                    all.len()
                },
                |k: int|
                    HighlightView {
                        line,
                        start: span_of(all[k]).0,
                        end: span_of(all[k]).1,
                        color,
                    },
            )
        },
        _ => Seq::empty(),
    }
}

/// What the first `n` rules highlight on a line.
pub open spec fn line_highlights(
    rules: Seq<RuleView>,
    n: nat,
    line: int,
    text: Seq<char>,
) -> Seq<HighlightView>
    decreases n,
{
    if n == 0 {
        Seq::empty()
    } else {
        line_highlights(rules, (n - 1) as nat, line, text) + rule_highlights(
            rules[n - 1],
            line,
            text,
        )
    }
}

/// What is highlighted on the first `n` lines in view. Lines above the topmost
/// one and empty ones hold nothing.
pub open spec fn view_highlights(
    rules: Seq<RuleView>,
    lines: Seq<Seq<char>>,
    offset: int,
    topmost: int,
    n: nat,
) -> Seq<HighlightView>
    decreases n,
{
    if n == 0 {
        Seq::empty()
    } else {
        let before = view_highlights(rules, lines, offset, topmost, (n - 1) as nat);
        let line = n - 1 - offset;
        if line < topmost || lines[n - 1].len() == 0 {
            before
        } else {
            before + line_highlights(rules, rules.len(), line, lines[n - 1])
        }
    }
}

impl Triggers {
    fn highlights_something(&self) -> (any: bool)
        ensures
            any == Self::highlights_any(self.rule_list()),
    {
        let mut i: usize = 0;
        while i < self.rules.len()
            invariant
                i <= self.rules@.len(),
                forall|j: int|
                    0 <= j < i ==> !((#[trigger] self.rule_list()[j]).action is Highlight),
            decreases self.rules.len() - i,
        {
            assert(self.rule_list()[i as int] == self.rules@[i as int]@);
            if let TriggerAction::Highlight { .. } = &self.rules[i].action {
                return true;
            }
            i = i + 1;
        }
        false
    }

    /// What is highlighted of the lines in view. Nothing is returned where no
    /// cell changed: what was highlighted stays. The lines are scrolled back by
    /// `offset`.
    pub fn highlights(&self, changed: bool, lines: &Vec<String>, offset: i32, topmost: i32) -> (out:
        Option<Vec<Highlighted>>)
        requires
            0 <= offset,
            lines@.len() <= i32::MAX,
        ensures
            match out {
                Some(all) => if Self::highlights_any(self.rule_list()) {
                    changed && highlight_views(all@) == view_highlights(
                        self.rule_list(),
                        texts(lines@),
                        offset as int,
                        topmost as int,
                        lines@.len(),
                    )
                } else {
                    all@.len() == 0
                },
                None => Self::highlights_any(self.rule_list()) && !changed,
            },
    {
        let mut out: Vec<Highlighted> = Vec::new();
        if !self.highlights_something() {
            return Some(out);
        }
        if !changed {
            return None;
        }
        let ghost rules = self.rule_list();
        let ghost all = texts(lines@);
        assert(highlight_views(out@) =~= Seq::<HighlightView>::empty());
        let mut i: usize = 0;
        while i < lines.len()
            invariant
                i <= lines@.len(),
                lines@.len() <= i32::MAX,
                0 <= offset,
                rules == self.rule_list(),
                all == texts(lines@),
                highlight_views(out@) == view_highlights(
                    rules,
                    all,
                    offset as int,
                    topmost as int,
                    i as nat,
                ),
            decreases lines.len() - i,
        {
            let line: i32 = i as i32 - offset;
            assert(all[i as int] == lines@[i as int]@);
            if line >= topmost && !is_blank(&lines[i]) {
                let ghost before = highlight_views(out@);
                let mut j: usize = 0;
                assert(before + Seq::<HighlightView>::empty() =~= before);
                while j < self.rules.len()
                    invariant
                        j <= self.rules@.len(),
                        i < lines@.len(),
                        rules == self.rule_list(),
                        rules.len() == self.rules@.len(),
                        all == texts(lines@),
                        highlight_views(out@) == before + line_highlights(
                            rules,
                            j as nat,
                            line as int,
                            all[i as int],
                        ),
                    decreases self.rules.len() - j,
                {
                    assert(rules[j as int] == self.rules@[j as int]@);
                    assert(all[i as int] == lines@[i as int]@);
                    let ghost so_far = highlight_views(out@);
                    let ghost part = rule_highlights(rules[j as int], line as int, all[i as int]);
                    if let TriggerAction::Highlight { color } = &self.rules[j].action {
                        let found = find_all(self.rules[j].regex.as_str(), lines[i].as_str());
                        let ghost matches = all_matches(rules[j as int].regex, all[i as int]);
                        assert(found_views(found@).len() == found@.len());
                        let n: usize = if found.len() > HIGHLIGHTS_PER_LINE {
                            HIGHLIGHTS_PER_LINE
                        } else {
                            found.len()
                        };
                        let mut k: usize = 0;
                        assert(so_far + part.take(0) =~= so_far);
                        while k < n
                            invariant
                                k <= n <= found@.len(),
                                n == part.len(),
                                found_views(found@) == matches,
                                matches == all_matches(rules[j as int].regex, all[i as int]),
                                part == rule_highlights(
                                    rules[j as int],
                                    line as int,
                                    all[i as int],
                                ),
                                rules[j as int].action == (ActionView::Highlight { color: *color }),
                                highlight_views(out@) == so_far + part.take(k as int),
                            decreases n - k,
                        {
                            let ghost earlier = highlight_views(out@);
                            assert(matches[k as int] == found@[k as int]@);
                            let (start, end) = span(&found[k]);
                            let one = Highlighted { line, start, end, color: *color };
                            out.push(one);
                            assert(highlight_views(out@) =~= earlier.push(one@));
                            assert(part.take(k + 1) =~= part.take(k as int).push(part[k as int]));
                            k = k + 1;
                            assert(highlight_views(out@) =~= so_far + part.take(k as int));
                        }
                        assert(part.take(n as int) =~= part);
                    } else {
                        assert(part =~= Seq::<HighlightView>::empty());
                        assert(so_far + part =~= so_far);
                    }
                    proof {
                        let lower = line_highlights(rules, j as nat, line as int, all[i as int]);
                        assert(before + (lower + part) =~= (before + lower) + part);
                    }
                    j = j + 1;
                }
            }
            i = i + 1;
        }
        Some(out)
    }
}

// ---------------------------------------------------------------------------
// Laws.

/// A rule that fires once and did is not tried again, on whatever line.
pub proof fn law_once_means_once(
    r: RouteView,
    rule: RuleView,
    on_cursor: bool,
    hits: Seq<(MatchView, u64)>,
    feed: Seq<Seq<char>>,
)
    requires
        rule.once,
        rule_fired(r, rule, on_cursor, hits, feed).1.len() > 0,
    ensures
        rule_fired(r, rule, on_cursor, hits, feed).1.len() == 1,
        !is_tried(rule_fired(r, rule, on_cursor, hits, feed).0, rule, on_cursor),
{
    let after = rule_fired(r, rule, on_cursor, hits, feed).0;
    lemma_once_single(r.fired, rule, on_cursor, hits, feed);
    assert(added(r.once, rule.id).contains(rule.id)) by {
        if !r.once.contains(rule.id) {
            assert(r.once.push(rule.id).last() == rule.id);
        }
    }
}

proof fn lemma_once_single(
    fired: Seq<(u64, u64)>,
    rule: RuleView,
    on_cursor: bool,
    hits: Seq<(MatchView, u64)>,
    feed: Seq<Seq<char>>,
)
    requires
        rule.once,
    ensures
        fired_for(fired, rule, on_cursor, hits, feed).1.len() <= 1,
    decreases hits.len(),
{
    if hits.len() > 0 {
        lemma_once_single(fired, rule, on_cursor, hits.skip(1), feed);
    }
}

/// What fired on the line of the cursor does not fire there again: looking at
/// the same matches twice does nothing the second time, though the line grew
/// around them.
pub proof fn law_an_answer_does_not_fire_again(
    r: RouteView,
    rule: RuleView,
    hits: Seq<(MatchView, u64)>,
    again: Seq<(MatchView, u64)>,
    feed: Seq<Seq<char>>,
)
    requires
        !rule.once,
        is_tried(r, rule, true),
        forall|i: int|
            0 <= i < again.len() ==> exists|j: int|
                0 <= j < hits.len() && (#[trigger] again[i]).1 == (#[trigger] hits[j]).1,
    ensures
        rule_fired(rule_fired(r, rule, true, hits, feed).0, rule, true, again, feed).1.len() == 0,
{
    let after = rule_fired(r, rule, true, hits, feed).0;
    lemma_all_known(r.fired, rule, hits, feed);
    assert forall|i: int| 0 <= i < again.len() implies after.fired.contains(
        (rule.id, (#[trigger] again[i]).1),
    ) by {
        let j = choose|j: int| 0 <= j < hits.len() && again[i].1 == (#[trigger] hits[j]).1;
        assert(after.fired.contains((rule.id, hits[j].1)));
    }
    lemma_known_do_nothing(after.fired, rule, again, feed);
}

proof fn lemma_all_known(
    fired: Seq<(u64, u64)>,
    rule: RuleView,
    hits: Seq<(MatchView, u64)>,
    feed: Seq<Seq<char>>,
)
    requires
        !rule.once,
    ensures
        forall|k: (u64, u64)|
            fired.contains(k) ==> fired_for(fired, rule, true, hits, feed).0.contains(k),
        forall|j: int|
            0 <= j < hits.len() ==> fired_for(fired, rule, true, hits, feed).0.contains(
                (rule.id, (#[trigger] hits[j]).1),
            ),
    decreases hits.len(),
{
    if hits.len() > 0 {
        let key = (rule.id, hits[0].1);
        let now = if fired.contains(key) {
            fired
        } else {
            fired.push(key)
        };
        assert(now.contains(key)) by {
            if !fired.contains(key) {
                assert(now.last() == key);
            }
        }
        assert forall|k: (u64, u64)| fired.contains(k) implies now.contains(k) by {
            let n = fired.index_of(k);
            assert(now[n] == k);
        }
        lemma_all_known(now, rule, hits.skip(1), feed);
        assert forall|j: int| 0 <= j < hits.len() implies fired_for(
            fired,
            rule,
            true,
            hits,
            feed,
        ).0.contains((rule.id, (#[trigger] hits[j]).1)) by {
            if j > 0 {
                assert(hits.skip(1)[j - 1] == hits[j]);
            }
        }
    }
}

proof fn lemma_known_do_nothing(
    fired: Seq<(u64, u64)>,
    rule: RuleView,
    hits: Seq<(MatchView, u64)>,
    feed: Seq<Seq<char>>,
)
    requires
        forall|i: int|
            0 <= i < hits.len() ==> fired.contains((rule.id, (#[trigger] hits[i]).1)),
    ensures
        fired_for(fired, rule, true, hits, feed).1.len() == 0,
    decreases hits.len(),
{
    if hits.len() > 0 {
        assert(fired.contains((rule.id, hits[0].1)));
        assert forall|i: int| 0 <= i < hits.skip(1).len() implies fired.contains(
            (rule.id, (#[trigger] hits.skip(1)[i]).1),
        ) by {
            assert(hits.skip(1)[i] == hits[i + 1]);
        }
        lemma_known_do_nothing(fired, rule, hits.skip(1), feed);
    }
}

/// A new layout of the screen fires nothing but on the line of the cursor.
pub proof fn law_a_new_layout_fires_nothing(
    r: RouteView,
    s: ScreenView,
    hashes: Seq<u64>,
    i: int,
)
    requires
        reflowed(r, s),
        0 <= i < s.lines.len(),
        !is_cursor_line(s, i),
    ensures
        !lines_due(prepared(r, s).seen, reflowed(r, s), s, hashes)[i],
{
}

} // verus!
