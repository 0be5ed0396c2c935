//! What the process file system says of a pane's shell: when it started and
//! which program is in the foreground of its terminal.
use crate::pane::texts;
use crate::text::{chars_of, has_prefix, parse_number, parsed_number, starts_with, text_between};
use crate::words::{lines, nth_word, split_lines, trim_text, trimmed_text, words};
use vstd::prelude::*;

verus! {

/// Where the last closing parenthesis stands.
pub open spec fn last_paren(s: Seq<char>) -> Option<int>
    decreases s.len(),
{
    if s.len() == 0 {
        None
    } else if s.last() == ')' {
        Some(s.len() - 1)
    } else {
        last_paren(s.drop_last())
    }
}

/// The `n`-th field behind the command name. The name is in parentheses and may
/// hold blanks and parentheses itself, so the last one ends it.
pub open spec fn stat_field(stat: Seq<char>, n: int) -> Option<Seq<char>> {
    match last_paren(stat) {
        Some(i) => {
            let fields = words(stat.skip(i + 1));
            if n < fields.len() {
                Some(fields[n])
            } else {
                None
            }
        },
        None => None,
    }
}

pub(crate) fn field_of(stat: &str, n: usize) -> (field: Option<String>)
    ensures
        crate::pane::opt_text(field) == stat_field(stat@, n as int),
{
    let chars = chars_of(stat);
    let mut i: usize = chars.len();
    assert(stat@.take(i as int) =~= stat@);
    while i > 0 && chars[i - 1] != ')'
        invariant
            i <= chars@.len(),
            chars@ == stat@,
            last_paren(stat@.take(i as int)) == last_paren(stat@),
        decreases i,
    {
        assert(stat@.take(i as int).drop_last() =~= stat@.take(i - 1));
        i = i - 1;
    }
    if i == 0 {
        return None;
    }
    nth_word(&chars, i, n)
}

/// The start time of a process in clock ticks since boot.
pub open spec fn ticks_of(stat: Seq<char>) -> Option<nat> {
    match stat_field(stat, 19) {
        Some(field) => parsed_number(field, u64::MAX as nat),
        None => None,
    }
}

/// The boot time that the first `btime` line gives.
pub open spec fn boot_time_of(all: Seq<Seq<char>>) -> Option<nat>
    decreases all.len(),
{
    if all.len() == 0 {
        None
    } else if starts_with(all[0], "btime "@) {
        parsed_number(trimmed_text(all[0].skip("btime "@.len() as int)), u64::MAX as nat)
    } else {
        boot_time_of(all.skip(1))
    }
}

/// When a process started, in seconds since the epoch.
pub open spec fn start_epoch_of(stat: Seq<char>, kernel: Seq<char>, hz: int) -> Option<int> {
    match (ticks_of(stat), boot_time_of(lines(kernel))) {
        (Some(ticks), Some(boot)) if hz > 0 => Some(boot + ticks as int / hz),
        _ => None,
    }
}

pub fn start_ticks(stat: &str) -> (ticks: Option<u64>)
    ensures
        match ticks_of(stat@) {
            Some(t) => ticks == Some(t as u64) && t <= u64::MAX,
            None => ticks is None,
        },
{
    match field_of(stat, 19) {
        Some(field) => parse_number(field.as_str(), u64::MAX),
        None => None,
    }
}

pub fn boot_time(kernel: &str) -> (boot: Option<u64>)
    ensures
        match boot_time_of(lines(kernel@)) {
            Some(b) => boot == Some(b as u64) && b <= u64::MAX,
            None => boot is None,
        },
{
    let all = split_lines(kernel);
    let mut i: usize = 0;
    assert(texts(all@).skip(0) =~= lines(kernel@));
    while i < all.len()
        invariant
            i <= all@.len(),
            boot_time_of(texts(all@).skip(i as int)) == boot_time_of(lines(kernel@)),
        decreases all.len() - i,
    {
        let ghost rest = texts(all@).skip(i as int);
        assert(rest[0] == all@[i as int]@);
        assert(rest.skip(1) =~= texts(all@).skip(i as int + 1));
        if has_prefix(all[i].as_str(), "btime ") {
            proof {
                reveal_strlit("btime ");
            }
            let chars = chars_of(all[i].as_str());
            let value = text_between(&chars, 6, chars.len());
            assert(value@ =~= rest[0].skip(6));
            return parse_number(trim_text(value.as_str()).as_str(), u64::MAX);
        }
        i = i + 1;
    }
    None
}

/// When a process started, from its own status line, the kernel's and the
/// clock rate.
pub fn start_epoch(stat: &str, kernel: &str, hz: i64) -> (start: Option<u64>)
    requires
        start_epoch_of(stat@, kernel@, hz as int) matches Some(s) ==> s <= u64::MAX,
    ensures
        match start_epoch_of(stat@, kernel@, hz as int) {
            Some(s) => start matches Some(v) && v == s,
            None => start is None,
        },
{
    if hz <= 0 {
        return None;
    }
    match (start_ticks(stat), boot_time(kernel)) {
        (Some(ticks), Some(boot)) => Some(boot + ticks / (hz as u64)),
        _ => None,
    }
}

/// The foreground process group of a shell's terminal, unless that is the shell
/// itself.
pub open spec fn foreground_group_of(stat: Seq<char>, shell_pid: int) -> Option<int> {
    match stat_field(stat, 5) {
        Some(field) => match parsed_number(field, i32::MAX as nat) {
            Some(group) if group > 0 && group != shell_pid => Some(group as int),
            _ => None,
        },
        None => None,
    }
}

pub fn foreground_group(stat: &str, shell_pid: i32) -> (group: Option<i32>)
    ensures
        match foreground_group_of(stat@, shell_pid as int) {
            Some(g) => group matches Some(v) && v == g,
            None => group is None,
        },
{
    match field_of(stat, 5) {
        Some(field) => match parse_number(field.as_str(), i32::MAX as u64) {
            Some(group) => if group > 0 && group as i64 != shell_pid as i64 {
                Some(group as i32)
            } else {
                None
            },
            None => None,
        },
        None => None,
    }
}

/// The program that a command name file names.
pub fn foreground(comm: &str) -> (program: Option<String>)
    ensures
        match program {
            Some(p) => p@ == trimmed_text(comm@) && p@.len() > 0,
            None => trimmed_text(comm@).len() == 0,
        },
{
    let name = trim_text(comm);
    if name.as_str().is_empty() {
        None
    } else {
        Some(name)
    }
}

} // verus!
