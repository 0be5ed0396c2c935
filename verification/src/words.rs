//! White space, words and lines.
use crate::text::{chars_of, text_between};
use vstd::prelude::*;

verus! {

/// The characters with the Unicode property White_Space.
pub open spec fn is_white_space(c: char) -> bool {
    let v = c as int;
    0x09 <= v <= 0x0D || v == 0x20 || v == 0x85 || v == 0xA0 || v == 0x1680 || 0x2000 <= v <= 0x200A
        || v == 0x2028 || v == 0x2029 || v == 0x202F || v == 0x205F || v == 0x3000
}

pub fn white_space(c: char) -> (white: bool)
    ensures
        white == is_white_space(c),
{
    let v: u32 = c as u32;
    0x09 <= v && v <= 0x0D || v == 0x20 || v == 0x85 || v == 0xA0 || v == 0x1680 || 0x2000 <= v && v
        <= 0x200A || v == 0x2028 || v == 0x2029 || v == 0x202F || v == 0x205F || v == 0x3000
}

/// A text without white space in front.
pub open spec fn trim_front(s: Seq<char>) -> Seq<char>
    decreases s.len(),
{
    if s.len() > 0 && is_white_space(s[0]) {
        trim_front(s.skip(1))
    } else {
        s
    }
}

/// A text without white space at its end.
pub open spec fn trim_back(s: Seq<char>) -> Seq<char>
    decreases s.len(),
{
    if s.len() > 0 && is_white_space(s.last()) {
        trim_back(s.drop_last())
    } else {
        s
    }
}

/// A text without white space around it.
pub open spec fn trimmed_text(s: Seq<char>) -> Seq<char> {
    trim_back(trim_front(s))
}

/// How many characters stand before the first white space.
pub open spec fn word_len(s: Seq<char>) -> nat
    decreases s.len(),
{
    if s.len() == 0 || is_white_space(s[0]) {
        0
    } else {
        1 + word_len(s.skip(1))
    }
}

proof fn lemma_trim_front_len(s: Seq<char>)
    ensures
        trim_front(s).len() <= s.len(),
        trim_front(s).len() > 0 ==> !is_white_space(trim_front(s)[0]),
    decreases s.len(),
{
    if s.len() > 0 && is_white_space(s[0]) {
        lemma_trim_front_len(s.skip(1));
    }
}

proof fn lemma_word_len(s: Seq<char>)
    ensures
        word_len(s) <= s.len(),
        s.len() > 0 && !is_white_space(s[0]) ==> word_len(s) > 0,
    decreases s.len(),
{
    if s.len() > 0 && !is_white_space(s[0]) {
        lemma_word_len(s.skip(1));
    }
}

/// The words of a text, as white space separates them.
pub open spec fn words(s: Seq<char>) -> Seq<Seq<char>>
    decreases s.len(),
    via words_shrink
{
    let t = trim_front(s);
    if t.len() == 0 {
        Seq::empty()
    } else {
        seq![t.take(word_len(t) as int)] + words(t.skip(word_len(t) as int))
    }
}

#[via_fn]
proof fn words_shrink(s: Seq<char>) {
    lemma_trim_front_len(s);
    lemma_word_len(trim_front(s));
}

/// How many characters from `from` on are white space.
fn skip_white(chars: &Vec<char>, from: usize) -> (to: usize)
    requires
        from <= chars@.len(),
    ensures
        from <= to <= chars@.len(),
        chars@.skip(to as int) == trim_front(chars@.skip(from as int)),
{
    let mut i: usize = from;
    while i < chars.len() && white_space(chars[i])
        invariant
            from <= i <= chars@.len(),
            trim_front(chars@.skip(i as int)) == trim_front(chars@.skip(from as int)),
        decreases chars.len() - i,
    {
        assert(chars@.skip(i as int).skip(1) =~= chars@.skip(i as int + 1));
        i = i + 1;
    }
    i
}

fn skip_word(chars: &Vec<char>, from: usize) -> (to: usize)
    requires
        from <= chars@.len(),
    ensures
        from <= to <= chars@.len(),
        to - from == word_len(chars@.skip(from as int)),
{
    let mut i: usize = from;
    while i < chars.len() && !white_space(chars[i])
        invariant
            from <= i <= chars@.len(),
            word_len(chars@.skip(from as int)) == i - from + word_len(chars@.skip(i as int)),
        decreases chars.len() - i,
    {
        assert(chars@.skip(i as int).skip(1) =~= chars@.skip(i as int + 1));
        i = i + 1;
    }
    i
}

/// The `n`-th word from `from` on, counted from zero.
pub fn nth_word(chars: &Vec<char>, from: usize, n: usize) -> (word: Option<String>)
    requires
        from <= chars@.len(),
    ensures
        match word {
            Some(w) => n < words(chars@.skip(from as int)).len() && w@ == words(
                chars@.skip(from as int),
            )[n as int],
            None => n >= words(chars@.skip(from as int)).len(),
        },
{
    let mut at: usize = from;
    let mut k: usize = 0;
    let ghost all = words(chars@.skip(from as int));
    assert(all.skip(0) =~= all);
    loop
        invariant
            k <= n,
            k <= all.len(),
            from <= at <= chars@.len(),
            all == words(chars@.skip(from as int)),
            words(chars@.skip(at as int)) == all.skip(k as int),
        decreases n - k,
    {
        let start: usize = skip_white(chars, at);
        let ghost rest = words(chars@.skip(at as int));
        let ghost t = chars@.skip(start as int);
        if start == chars.len() {
            assert(rest.len() == 0);
            assert(all.skip(k as int).len() == 0);
            return None;
        }
        let end: usize = skip_word(chars, start);
        proof {
            lemma_trim_front_len(chars@.skip(at as int));
            lemma_word_len(t);
            assert(rest == seq![t.take(word_len(t) as int)] + words(t.skip(word_len(t) as int)));
            assert(t.take(word_len(t) as int) =~= chars@.subrange(start as int, end as int));
            assert(t.skip(word_len(t) as int) =~= chars@.skip(end as int));
            assert(rest[0] == all[k as int]);
            assert(all.skip(k as int + 1) =~= rest.skip(1));
            assert(rest.skip(1) =~= words(chars@.skip(end as int)));
        }
        if k == n {
            return Some(text_between(chars, start, end));
        }
        at = end;
        k = k + 1;
    }
}

/// Removes white space around a text.
pub fn trim_text(text: &str) -> (out: String)
    ensures
        out@ == trimmed_text(text@),
{
    let chars = chars_of(text);
    assert(chars@.skip(0) =~= chars@);
    let start: usize = skip_white(&chars, 0);
    let ghost front = trim_front(text@);
    let mut end: usize = chars.len();
    assert(front =~= chars@.subrange(start as int, end as int));
    while end > start && white_space(chars[end - 1])
        invariant
            start <= end <= chars@.len(),
            trim_back(chars@.subrange(start as int, end as int)) == trim_back(front),
        decreases end,
    {
        assert(chars@.subrange(start as int, end as int).drop_last() =~= chars@.subrange(
            start as int,
            end - 1,
        ));
        end = end - 1;
    }
    text_between(&chars, start, end)
}

/// How many characters stand before the first line feed.
pub open spec fn line_len(s: Seq<char>) -> nat
    decreases s.len(),
{
    if s.len() == 0 || s[0] == '\n' {
        0
    } else {
        1 + line_len(s.skip(1))
    }
}

proof fn lemma_line_len(s: Seq<char>)
    ensures
        line_len(s) <= s.len(),
        line_len(s) < s.len() ==> s[line_len(s) as int] == '\n',
    decreases s.len(),
{
    if s.len() > 0 && s[0] != '\n' {
        lemma_line_len(s.skip(1));
    }
}

/// A line without a carriage return at its end.
pub open spec fn uncarried(line: Seq<char>) -> Seq<char> {
    if line.len() > 0 && line.last() == '\r' {
        line.drop_last()
    } else {
        line
    }
}

/// The lines of a text. A line feed at the very end starts no further line; a
/// carriage return before a line feed belongs to neither line.
pub open spec fn lines(s: Seq<char>) -> Seq<Seq<char>>
    decreases s.len(),
    via lines_shrink
{
    if s.len() == 0 {
        Seq::empty()
    } else if line_len(s) < s.len() {
        seq![uncarried(s.take(line_len(s) as int))] + lines(s.skip(line_len(s) as int + 1))
    } else {
        seq![s]
    }
}

#[via_fn]
proof fn lines_shrink(s: Seq<char>) {
    lemma_line_len(s);
}

fn skip_line(chars: &Vec<char>, from: usize) -> (to: usize)
    requires
        from <= chars@.len(),
    ensures
        from <= to <= chars@.len(),
        to - from == line_len(chars@.skip(from as int)),
{
    let mut i: usize = from;
    while i < chars.len() && chars[i] != '\n'
        invariant
            from <= i <= chars@.len(),
            line_len(chars@.skip(from as int)) == i - from + line_len(chars@.skip(i as int)),
        decreases chars.len() - i,
    {
        assert(chars@.skip(i as int).skip(1) =~= chars@.skip(i as int + 1));
        i = i + 1;
    }
    i
}

/// The lines of a text.
pub fn split_lines(text: &str) -> (out: Vec<String>)
    ensures
        crate::pane::texts(out@) == lines(text@),
{
    let chars = chars_of(text);
    let mut out: Vec<String> = Vec::new();
    let mut at: usize = 0;
    assert(chars@.skip(0) =~= chars@);
    assert(crate::pane::texts(out@) + lines(chars@) =~= lines(chars@));
    while at < chars.len()
        invariant
            at <= chars@.len(),
            chars@ == text@,
            crate::pane::texts(out@) + lines(chars@.skip(at as int)) == lines(text@),
        decreases chars.len() - at,
    {
        let end: usize = skip_line(&chars, at);
        let ghost rest = chars@.skip(at as int);
        let ghost done = crate::pane::texts(out@);
        proof {
            lemma_line_len(rest);
            assert(rest.take(line_len(rest) as int) =~= chars@.subrange(at as int, end as int));
        }
        if end < chars.len() {
            let stop: usize = if end > at && chars[end - 1] == '\r' {
                end - 1
            } else {
                end
            };
            let line = text_between(&chars, at, stop);
            proof {
                assert(line@ =~= uncarried(rest.take(line_len(rest) as int)));
                assert(rest.skip(line_len(rest) as int + 1) =~= chars@.skip(end as int + 1));
            }
            out.push(line);
            proof {
                assert(crate::pane::texts(out@) =~= done.push(line@));
                assert(crate::pane::texts(out@) + lines(chars@.skip(end as int + 1)) =~= done
                    + lines(rest));
            }
            at = end + 1;
        } else {
            let line = text_between(&chars, at, end);
            assert(line@ =~= rest);
            out.push(line);
            proof {
                assert(crate::pane::texts(out@) =~= done.push(line@));
                assert(chars@.skip(end as int).len() == 0);
                assert(crate::pane::texts(out@) + lines(chars@.skip(end as int)) =~= done + lines(
                    rest,
                ));
            }
            at = end;
        }
    }
    assert(crate::pane::texts(out@) + lines(chars@.skip(at as int)) =~= crate::pane::texts(out@));
    out
}

} // verus!
