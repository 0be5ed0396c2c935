use rio_sessions::procfs::{boot_time, foreground, foreground_group, start_epoch, start_ticks};
use rio_sessions::text::{
    chars_of, has_prefix, has_suffix, parse_number, push_decimal, push_hex_byte,
    push_left_aligned, push_number, push_right_aligned, same_bytes, same_text, signed_to_text,
    text_between,
};
use rio_sessions::words::{nth_word, split_lines, trim_text, white_space};

#[test]
fn numbers_as_text_and_back() {
    let mut bytes = vec![b'#'];
    push_decimal(&mut bytes, 0);
    push_decimal(&mut bytes, 1049);
    assert_eq!(bytes, b"#01049");
    let mut out = String::new();
    push_number(&mut out, u64::MAX);
    push_hex_byte(&mut out, 0x0F);
    assert_eq!(out, "184467440737095516150f");
    assert_eq!(signed_to_text(-2147483648), "-2147483648");
    assert_eq!(signed_to_text(7), "7");
    assert_eq!(parse_number("0042", 100), Some(42));
    assert_eq!(parse_number("+7", 100), Some(7));
    assert_eq!(parse_number("101", 100), None);
    assert_eq!(parse_number("", 100), None);
    assert_eq!(parse_number("-1", 100), None);
    assert_eq!(parse_number("4x", 100), None);
}

#[test]
fn columns_are_filled_up_and_never_cut() {
    let mut out = String::new();
    push_left_aligned(&mut out, "ab", 4);
    push_right_aligned(&mut out, "cd", 4);
    push_left_aligned(&mut out, "toolong", 3);
    assert_eq!(out, "ab    cdtoolong");
}

#[test]
fn texts_are_compared_by_their_characters() {
    assert!(same_text("h\u{e9}", "h\u{e9}"));
    assert!(!same_text("a", "ab"));
    assert!(same_bytes(&[1, 2], &[1, 2]));
    assert!(!same_bytes(&[1, 2], &[1, 3]));
    assert!(has_prefix("btime 7", "btime "));
    assert!(!has_prefix("b", "btime "));
    assert!(has_suffix("x.sock", ".sock"));
    assert!(!has_suffix("k", ".sock"));
    assert_eq!(text_between(&chars_of("h\u{e9}llo"), 1, 3), "\u{e9}l");
}

#[test]
fn words_and_lines() {
    assert!(white_space('\u{2003}'));
    assert!(!white_space('x'));
    assert_eq!(trim_text("\t a b \n"), "a b");
    assert_eq!(split_lines("a\r\nb\n\nc"), ["a", "b", "", "c"]);
    assert_eq!(nth_word(&chars_of("x  y z"), 1, 1).as_deref(), Some("z"));
    assert_eq!(nth_word(&chars_of("x  y z"), 1, 2), None);
}

const STAT: &str =
    "4242 (a) b) S 1 4242 4242 34816 5151 4194304 1 2 3 4 5 6 7 8 20 0 1 0 98765 1 2 3";

#[test]
fn a_status_line_is_read_behind_the_name() {
    assert_eq!(start_ticks(STAT), Some(98765));
    assert_eq!(foreground_group(STAT, 4242), Some(5151));
    assert_eq!(foreground_group(STAT, 5151), None);
    assert_eq!(start_ticks("nonsense"), None);
    assert_eq!(foreground_group("4242 (sh) S 1 4242 4242 34816 -1 0", 1), None);
}

#[test]
fn a_start_in_seconds() {
    let kernel = "cpu 1 2 3\nbtime 1700000000\nprocesses 5\n";
    assert_eq!(boot_time(kernel), Some(1_700_000_000));
    assert_eq!(start_epoch(STAT, kernel, 100), Some(1_700_000_987));
    assert_eq!(start_epoch(STAT, kernel, 0), None);
    assert_eq!(start_epoch(STAT, "cpu 1\n", 100), None);
    assert_eq!(boot_time("btime x\nbtime 5\n"), None);
}

#[test]
fn a_program_without_a_name_is_none() {
    assert_eq!(foreground("vim\n").as_deref(), Some("vim"));
    assert_eq!(foreground("\n"), None);
}
