use rio_sessions::matching::{find_all, span, substitute};
use rio_sessions::triggers::{
    capture_screen, feed_start, hits_of, resolve, ResolvedAction, RuleConfig, Screen,
    TriggerAction, Triggers, FEED_HISTORY_LINES, FEED_PAYLOAD_CAP,
};

fn caps(re: &str, text: &str) -> Vec<Option<String>> {
    find_all(re, text).swap_remove(0).groups
}

#[test]
fn substitute_groups() {
    let c = caps(r"error: (\w+) (\w+)", "error: disk full");
    assert_eq!(substitute(r"\0", &c), "error: disk full");
    assert_eq!(substitute(r"\1/\2", &c), "disk/full");
    assert_eq!(substitute(r"\9", &c), "");
    assert_eq!(substitute(r"a\\b", &c), r"a\b");
    assert_eq!(substitute("plain", &c), "plain");
}

fn rule(regex: &str, action: &TriggerAction) -> RuleConfig {
    RuleConfig { regex: regex.into(), instant: true, once: false, action: action.clone() }
}

fn rule_id(regex: &str, action: &TriggerAction) -> u64 {
    Triggers::new(vec![rule(regex, action)]).rules()[0].id
}

#[test]
fn rule_id_is_stable_and_distinct() {
    let color = [0.0f32, 0.0, 0.0, 1.0].map(f32::to_bits);
    let a = TriggerAction::TabColor { color };
    let b = TriggerAction::SendText { text: "y\n".into() };
    // Same regex + same action -> same id across calls (survives reload).
    assert_eq!(rule_id("done", &a), rule_id("done", &a));
    // A different regex or a different action -> different id.
    assert_ne!(rule_id("done", &a), rule_id("finished", &a));
    assert_ne!(rule_id("done", &a), rule_id("done", &b));
}

#[test]
fn match_hash_tracks_matched_substring() {
    // The whole line grows as an echo appends, but the match text is the
    // same, so the cursor-line dedup key is unchanged -> no re-fire.
    let h1 = hits_of(r"\[y/n\]", "Continue? [y/n]");
    let h2 = hits_of(r"\[y/n\]", "Continue? [y/n]y");
    assert_eq!(h1[0].hash, h2[0].hash);
}

fn screen(history: i64, cursor_row: i64, lines: &[&str]) -> Screen {
    Screen {
        history,
        cursor_row,
        columns: 80,
        changed: true,
        live: true,
        lines: lines.iter().map(|l| l.to_string()).collect(),
        feed: Vec::new(),
    }
}

fn notify(regex: &str, once: bool) -> RuleConfig {
    RuleConfig {
        regex: regex.into(),
        instant: false,
        once,
        action: TriggerAction::Notify { title: "t".into(), body: r"\1!".into(), urgency: 2 },
    }
}

fn bodies(actions: Vec<ResolvedAction>) -> Vec<String> {
    actions
        .into_iter()
        .map(|a| match a {
            ResolvedAction::Notify { body, .. } => body,
            _ => panic!("not a notification"),
        })
        .collect()
}

#[test]
fn matches_are_found_one_after_the_other() {
    let all = find_all(r"(a)(x)?", "a-\u{e9}ax");
    assert_eq!(all.len(), 2);
    assert_eq!(all[0].groups, [Some("a".to_string()), Some("a".to_string()), None]);
    assert_eq!((all[0].start, all[0].end), (0, 1));
    assert_eq!((all[1].start, all[1].end), (3, 5));
    assert_eq!(span(&all[1]), (3, 4));
    assert!(find_all("b", "aaa").is_empty());
    assert!(find_all("(", "((").is_empty());
    assert_eq!(find_all("x*", "axb").len(), 3);
}

#[test]
fn a_line_fires_when_it_is_new() {
    let mut t = Triggers::new(vec![notify(r"error: (\w+)", false)]);
    assert!(t.scan(1, &screen(0, 2, &["error: old", "", "$ "])).is_empty());
    let s = screen(0, 2, &["error: old", "error: disk error: net", "$ "]);
    assert_eq!(bodies(t.scan(1, &s)), ["disk!", "net!"]);
    assert!(t.scan(1, &s).is_empty());
    let s = screen(1, 2, &["error: disk error: net", "error: new", "$ "]);
    assert_eq!(bodies(t.scan(1, &s)), ["new!"]);
}

#[test]
fn a_rule_that_fires_once_fires_once() {
    let mut t = Triggers::new(vec![notify(r"error: (\w+)", true)]);
    t.scan(1, &screen(0, 2, &["", "", "$ "]));
    assert_eq!(bodies(t.scan(1, &screen(0, 2, &["error: a error: b", "", "$ "]))), ["a!"]);
    assert!(t.scan(1, &screen(0, 2, &["error: a error: b", "error: c", "$ "])).is_empty());
    t.rebuild(vec![notify("other", false), notify(r"error: (\w+)", true)]);
    assert!(t.scan(1, &screen(0, 2, &["x", "error: d", "$ "])).is_empty());
    t.reset();
    assert_eq!(bodies(t.scan(1, &screen(0, 2, &["x", "error: e", "$ "]))), ["e!"]);
}

#[test]
fn an_answer_does_not_fire_again() {
    let answer = TriggerAction::SendText { text: "y\n".into() };
    let mut t = Triggers::new(vec![rule(r"\[y/n\]", &answer)]);
    let fired = t.scan(1, &screen(0, 0, &["Continue? [y/n]"]));
    assert!(matches!(&fired[..], [ResolvedAction::SendText(text)] if text == "y\n"));
    assert!(t.scan(1, &screen(0, 0, &["Continue? [y/n]y"])).is_empty());
    assert_eq!(t.scan(1, &screen(1, 0, &["Again? [y/n]"])).len(), 1);
}

#[test]
fn a_new_layout_fires_nothing() {
    let mut t = Triggers::new(vec![notify(r"error: (\w+)", false)]);
    t.scan(1, &screen(0, 1, &["", "$ "]));
    let mut s = screen(0, 1, &["error: wrapped", "$ "]);
    s.columns = 40;
    assert!(t.scan(1, &s).is_empty());
    assert!(t.scan(1, &s).is_empty());
}

#[test]
fn terminals_are_kept_apart_and_forgotten() {
    let mut t = Triggers::new(vec![notify(r"error: (\w+)", true)]);
    let start = screen(0, 1, &["", "$ "]);
    let s = screen(0, 1, &["error: x", "$ "]);
    t.scan(1, &start);
    t.scan(2, &start);
    assert_eq!(t.scan(1, &s).len(), 1);
    assert_eq!(t.scan(2, &s).len(), 1);
    t.forget_route(1);
    t.scan(1, &start);
    assert_eq!(t.scan(1, &s).len(), 1);
    t.scan(2, &start);
    assert!(t.scan(2, &s).is_empty());
}

#[test]
fn nothing_is_looked_at_without_a_change() {
    let mut t = Triggers::new(vec![notify(r"error: (\w+)", false)]);
    t.scan(1, &screen(0, 1, &["", "$ "]));
    let mut s = screen(0, 1, &["error: x", "$ "]);
    s.changed = false;
    assert!(t.scan(1, &s).is_empty());
    s.changed = true;
    assert_eq!(t.scan(1, &s).len(), 1);
}

#[test]
fn a_rule_that_cannot_be_read_is_left_out() {
    let t = Triggers::new(vec![notify("(", false)]);
    assert!(t.is_empty());
    let t = Triggers::new(vec![notify("(", false), notify("x", true)]);
    assert_eq!(t.rules().len(), 1);
    assert!(t.rules()[0].once);
}

#[test]
fn actions_take_what_matched() {
    let groups = vec![Some("all".to_string()), Some("one".to_string()), None];
    let feed = vec!["l1".to_string(), "l2".to_string()];
    let run = TriggerAction::Run { program: "p".into(), args: vec![r"<\1>".into(), r"\2".into()] };
    let ResolvedAction::Run { program, args } = resolve(&run, &groups, &feed) else {
        panic!("not a program")
    };
    assert_eq!(program, "p");
    assert_eq!(args, ["<one>", ""]);
    let coprocess = |feed_screen| TriggerAction::Coprocess {
        program: "p".into(),
        args: vec![r"\0".into()],
        feed_screen,
    };
    assert!(matches!(
        resolve(&coprocess(true), &groups, &feed),
        ResolvedAction::Coprocess { stdin: Some(s), .. } if s == "l1\nl2"
    ));
    assert!(matches!(
        resolve(&coprocess(false), &groups, &feed),
        ResolvedAction::Coprocess { stdin: None, args, .. } if args == ["all"]
    ));
    let color = TriggerAction::TabColor { color: [1, 2, 3, 4] };
    assert!(matches!(
        resolve(&color, &groups, &feed),
        ResolvedAction::TabColor([1, 2, 3, 4])
    ));
}

#[test]
fn a_coprocess_is_fed_the_end_of_the_screen() {
    assert_eq!(feed_start(-10), -10);
    assert_eq!(feed_start(-1000), -FEED_HISTORY_LINES);
    let lines = vec!["x".repeat(FEED_PAYLOAD_CAP), "end".to_string()];
    let fed = capture_screen(&lines);
    assert_eq!(fed.len(), FEED_PAYLOAD_CAP);
    assert!(fed.ends_with("x\nend"));
}

#[test]
fn matches_are_highlighted() {
    let color = [1, 2, 3, 4];
    let mark = TriggerAction::Highlight { color };
    let t = Triggers::new(vec![rule("ab", &mark)]);
    let lines: Vec<String> = ["xab", "", "abab"].map(str::to_string).to_vec();
    let all = t.highlights(true, &lines, 1, -1).unwrap();
    let seen: Vec<(i32, usize, usize, [u8; 4])> =
        all.iter().map(|h| (h.line, h.start, h.end, h.color)).collect();
    assert_eq!(seen, [(-1, 1, 2, color), (1, 0, 1, color), (1, 2, 3, color)]);
    assert_eq!(t.highlights(true, &lines, 1, 0).unwrap().len(), 2);
    assert!(t.highlights(false, &lines, 1, 0).is_none());
    let t = Triggers::new(vec![notify("ab", false)]);
    assert!(t.highlights(false, &lines, 1, 0).unwrap().is_empty());
}

#[test]
fn once_is_once_over_many_looks_and_for_each_terminal() {
    let mut t = Triggers::new(vec![notify(r"error: (\w+)", true)]);
    let mut acts = 0;
    for route in [1, 2] {
        t.scan(route, &screen(0, 2, &["", "", "$ "]));
        for n in 0..4 {
            let line = format!("error: a{n} error: b{n}");
            acts += t.scan(route, &screen(0, 2, &[line.as_str(), line.as_str(), "$ "])).len();
        }
        assert_eq!(acts, route);
    }
}

#[test]
fn an_id_does_not_depend_on_the_place_of_a_rule() {
    let all = Triggers::new(vec![notify("a", false), notify("b", false), notify("c", false)]);
    let fewer = Triggers::new(vec![notify("c", false), notify("(", false), notify("a", true)]);
    let ids: Vec<u64> = all.rules().iter().map(|r| r.id).collect();
    assert_eq!(fewer.rules()[0].id, ids[2]);
    assert_eq!(fewer.rules()[1].id, ids[0]);
    assert!(ids[0] != ids[1] && ids[1] != ids[2] && ids[0] != ids[2]);
}

#[test]
fn a_hash_follows_what_matched() {
    let hits = hits_of(r"\w+", "one two one");
    assert_eq!(hits[0].hash, hits[2].hash);
    assert_ne!(hits[0].hash, hits[1].hash);
    let mut t = Triggers::new(vec![notify(r"error: (\w+)", false)]);
    t.scan(1, &screen(0, 1, &["error: a", "$ "]));
    assert_eq!(bodies(t.scan(1, &screen(0, 1, &["error: b", "$ "]))), ["b!"]);
}
