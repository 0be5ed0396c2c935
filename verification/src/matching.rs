//! Finding a pattern in a line, and putting what it matched into a template.
use crate::pane::opt_text;
use crate::session::encoded_len;
use crate::text::{chars_of, text_between};
use vstd::prelude::*;
use vstd::utf8::{encode_scalar, encode_utf8};

verus! {

/// Where the groups of a pattern matched, the whole match first, as byte
/// offsets: what `onig` finds from an offset on. None where it finds nothing,
/// gives up, or does not accept the pattern.
pub uninterp spec fn onig_search(pattern: Seq<char>, text: Seq<char>, from: nat) -> Option<
    Seq<Option<(usize, usize)>>,
>;

/// Where a group begins.
pub open spec fn group_start(group: Option<(usize, usize)>) -> int {
    match group {
        Some((start, end)) => start as int,
        None => 0,
    }
}

/// Where a group ends.
pub open spec fn group_end(group: Option<(usize, usize)>) -> int {
    match group {
        Some((start, end)) => end as int,
        None => 0,
    }
}

/// The mathematical value of what [`search`] returns.
pub open spec fn groups_value(groups: Option<Vec<Option<(usize, usize)>>>) -> Option<
    Seq<Option<(usize, usize)>>,
> {
    match groups {
        Some(g) => Some(g@),
        None => None,
    }
}

/// `Regex::new`, then `Regex::search_with_param` forward from an offset to the
/// end, and `Region::pos` of each group. A search that gives up is reported by
/// `onig` as an error and counts as finding nothing. Where something is found,
/// the whole match is the first group and ends between the offset and the end of
/// the text. What a pattern matches is only named.
#[verifier::external_body]
fn search(pattern: &str, text: &str, from: usize) -> (groups: Option<Vec<Option<(usize, usize)>>>)
    requires
        from <= encode_utf8(text@).len(),
    ensures
        groups_value(groups) == onig_search(pattern@, text@, from as nat),
        groups is Some ==> groups->0@.len() > 0 && groups->0@[0] is Some && from <= group_end(
            groups->0@[0],
        ) <= encode_utf8(text@).len(),
{
    let regex = onig::Regex::new(pattern).ok()?;
    let mut region = onig::Region::new();
    let options = onig::SearchOptions::SEARCH_OPTION_NONE;
    let param = onig::MatchParam::default();
    regex.search_with_param(text, from, text.len(), options, Some(&mut region), param).ok()??;
    Some((0..region.len()).map(|i| region.pos(i)).collect())
}

/// Whether `onig` accepts a pattern.
pub uninterp spec fn onig_accepts(pattern: Seq<char>) -> bool;

/// `Regex::new`: whether it makes a regex of the pattern. Which patterns are
/// accepted is only named.
#[verifier::external_body]
pub(crate) fn accepts(pattern: &str) -> (ok: bool)
    ensures
        ok == onig_accepts(pattern@),
{
    onig::Regex::new(pattern).is_ok()
}

/// The byte offset of a character.
pub open spec fn byte_at(text: Seq<char>, i: int) -> nat {
    encode_utf8(text.take(i)).len()
}

/// The first character at or behind a byte offset, looked for from `i` on.
pub open spec fn char_from(text: Seq<char>, offset: int, i: int) -> int
    decreases text.len() - i,
{
    if i >= text.len() || byte_at(text, i) >= offset {
        i
    } else {
        char_from(text, offset, i + 1)
    }
}

/// How many characters stand before a byte offset.
pub open spec fn char_at(text: Seq<char>, offset: int) -> int {
    char_from(text, offset, 0)
}

/// A match: the texts of the groups, and where the whole match stands among the
/// characters.
#[verifier::ext_equal]
pub struct MatchView {
    pub groups: Seq<Option<Seq<char>>>,
    pub start: int,
    pub end: int,
}

/// The text of a group. Empty where it ends before it starts.
pub open spec fn group_text(text: Seq<char>, group: Option<(usize, usize)>) -> Option<Seq<char>> {
    match group {
        None => None,
        Some((s, e)) => {
            let from = char_at(text, s as int);
            let to = char_at(text, e as int);
            Some(
                if from <= to {
                    text.subrange(from, to)
                } else {
                    Seq::empty()
                },
            )
        },
    }
}

/// The match that groups describe.
pub open spec fn match_of(text: Seq<char>, groups: Seq<Option<(usize, usize)>>) -> MatchView {
    MatchView {
        groups: Seq::new(groups.len(), |i: int| group_text(text, groups[i])),
        start: char_at(text, group_start(groups[0])),
        end: char_at(text, group_end(groups[0])),
    }
}

/// The matches of a pattern from a character on, one behind the other. An empty
/// match right behind the last one is passed over.
pub open spec fn matches_from(
    pattern: Seq<char>,
    text: Seq<char>,
    from: int,
    last_end: Option<int>,
) -> Seq<MatchView>
    decreases
            text.len() + 1 - from,
            (if last_end == Some(from) {
                0int
            } else {
                1
            }),
{
    if from < 0 || from > text.len() {
        Seq::empty()
    } else {
        match onig_search(pattern, text, byte_at(text, from)) {
            None => Seq::empty(),
            Some(groups) => {
                let found = match_of(text, groups);
                proof {
                    lemma_char_bounds(text, group_end(groups[0]), 0);
                }
                if found.end < from {
                    Seq::empty()
                } else if last_end == Some(found.end) && (found.start == found.end || found.end
                    == from) {
                    matches_from(pattern, text, from + 1, last_end)
                } else {
                    seq![found] + matches_from(pattern, text, found.end, Some(found.end))
                }
            },
        }
    }
}

/// All matches of a pattern in a text.
pub open spec fn all_matches(pattern: Seq<char>, text: Seq<char>) -> Seq<MatchView> {
    matches_from(pattern, text, 0, None)
}

/// A match.
#[derive(Clone, Debug)]
pub struct Found {
    pub groups: Vec<Option<String>>,
    pub start: usize,
    pub end: usize,
}

pub open spec fn group_texts(groups: Seq<Option<String>>) -> Seq<Option<Seq<char>>> {
    Seq::new(groups.len(), |i: int| opt_text(groups[i]))
}

impl View for Found {
    type V = MatchView;

    open spec fn view(&self) -> MatchView {
        MatchView {
            groups: group_texts(self.groups@),
            start: self.start as int,
            end: self.end as int,
        }
    }
}

pub open spec fn found_views(found: Seq<Found>) -> Seq<MatchView> {
    Seq::new(found.len(), |i: int| found[i]@)
}

proof fn lemma_byte_step(text: Seq<char>, i: int)
    requires
        0 <= i < text.len(),
    ensures
        byte_at(text, i + 1) == byte_at(text, i) + encode_scalar(text[i] as u32).len(),
    decreases i,
{
    lemma_encode_push(text.take(i), text[i]);
    assert(text.take(i + 1) =~= text.take(i).push(text[i]));
}

proof fn lemma_encode_push(text: Seq<char>, c: char)
    ensures
        encode_utf8(text.push(c)).len() == encode_utf8(text).len() + encode_scalar(c as u32).len(),
    decreases text.len(),
{
    if text.len() == 0 {
        assert(text =~= Seq::<char>::empty());
        assert(text.push(c).drop_first() =~= Seq::<char>::empty());
        let one = text.push(c);
        assert(encode_utf8(one.drop_first()).len() == 0);
        assert(one[0] == c);
        assert(encode_utf8(one) == encode_scalar(one[0] as u32) + encode_utf8(one.drop_first()));
    } else {
        assert(text.push(c)[0] == text[0]);
        lemma_encode_push(text.drop_first(), c);
        assert(text.push(c).drop_first() =~= text.drop_first().push(c));
    }
}

proof fn lemma_bytes_grow(text: Seq<char>, i: int, j: int)
    requires
        0 <= i <= j <= text.len(),
    ensures
        byte_at(text, i) <= byte_at(text, j),
        j - i <= byte_at(text, j) - byte_at(text, i),
    decreases j - i,
{
    if i < j {
        lemma_bytes_grow(text, i, j - 1);
        lemma_byte_step(text, j - 1);
        lemma_scalar_len(text[j - 1]);
    }
}

proof fn lemma_scalar_len(c: char)
    ensures
        1 <= encode_scalar(c as u32).len() <= 4,
{
}

/// The byte offsets of characters, that of the end behind them.
fn offsets_of(chars: &Vec<char>, text: &str) -> (offsets: Vec<usize>)
    requires
        chars@ == text@,
    ensures
        offsets@.len() == text@.len() + 1,
        forall|i: int| 0 <= i <= text@.len() ==> #[trigger] offsets@[i] == byte_at(text@, i),
        offsets@.last() == encode_utf8(text@).len(),
{
    proof {
        vstd::utf8::encode_utf8_decode_utf8(text@);
    }
    let total: usize = text.as_bytes().len();
    assert(text@.take(text@.len() as int) =~= text@);
    let mut offsets: Vec<usize> = Vec::new();
    let mut at: usize = 0;
    assert(text@.take(0) =~= Seq::<char>::empty());
    offsets.push(0);
    let mut i: usize = 0;
    while i < chars.len()
        invariant
            i <= chars@.len(),
            chars@ == text@,
            total == encode_utf8(text@).len(),
            total == byte_at(text@, text@.len() as int),
            at == byte_at(text@, i as int),
            offsets@.len() == i + 1,
            forall|j: int| 0 <= j <= i ==> #[trigger] offsets@[j] == byte_at(text@, j),
        decreases chars.len() - i,
    {
        proof {
            lemma_byte_step(text@, i as int);
            lemma_bytes_grow(text@, i + 1, text@.len() as int);
        }
        at = at + encoded_len(chars[i]);
        offsets.push(at);
        i = i + 1;
    }
    offsets
}

/// How many characters stand before a byte offset.
fn char_index(offsets: &Vec<usize>, text: Ghost<Seq<char>>, offset: usize) -> (i: usize)
    requires
        offsets@.len() == text@.len() + 1,
        forall|i: int| 0 <= i <= text@.len() ==> #[trigger] offsets@[i] == byte_at(text@, i),
    ensures
        i == char_at(text@, offset as int),
        i <= text@.len(),
{
    let mut i: usize = 0;
    while i < offsets.len() - 1 && offsets[i] < offset
        invariant
            offsets@.len() == text@.len() + 1,
            i <= text@.len(),
            forall|j: int| 0 <= j <= text@.len() ==> #[trigger] offsets@[j] == byte_at(text@, j),
            char_at(text@, offset as int) == char_from(text@, offset as int, i as int),
        decreases offsets.len() - i,
    {
        i = i + 1;
    }
    i
}

/// A character index lies in the text.
pub proof fn lemma_char_bounds(text: Seq<char>, offset: int, i: int)
    requires
        0 <= i <= text.len(),
    ensures
        i <= char_from(text, offset, i) <= text.len(),
    decreases text.len() - i,
{
    if i < text.len() && byte_at(text, i) < offset {
        lemma_char_bounds(text, offset, i + 1);
    }
}

/// The match that groups describe.
fn describe(
    chars: &Vec<char>,
    offsets: &Vec<usize>,
    groups: &Vec<Option<(usize, usize)>>,
) -> (found: Found)
    requires
        offsets@.len() == chars@.len() + 1,
        forall|i: int| 0 <= i <= chars@.len() ==> #[trigger] offsets@[i] == byte_at(chars@, i),
        groups@.len() > 0,
        groups@[0] is Some,
    ensures
        found@ == match_of(chars@, groups@),
        found.end <= chars@.len(),
{
    let mut out: Vec<Option<String>> = Vec::new();
    let mut start: usize = 0;
    let mut end: usize = 0;
    let mut i: usize = 0;
    while i < groups.len()
        invariant
            i <= groups@.len(),
            groups@.len() > 0,
            groups@[0] is Some,
            offsets@.len() == chars@.len() + 1,
            forall|j: int| 0 <= j <= chars@.len() ==> #[trigger] offsets@[j] == byte_at(chars@, j),
            out@.len() == i,
            forall|j: int|
                0 <= j < i ==> opt_text(#[trigger] out@[j]) == group_text(chars@, groups@[j]),
            i > 0 ==> start == char_at(chars@, group_start(groups@[0])),
            i > 0 ==> end == char_at(chars@, group_end(groups@[0])),
            end <= chars@.len(),
        decreases groups.len() - i,
    {
        match groups[i] {
            Some((s, e)) => {
                let from: usize = char_index(offsets, Ghost(chars@), s);
                let to: usize = char_index(offsets, Ghost(chars@), e);
                if i == 0 {
                    start = from;
                    end = to;
                }
                if from <= to {
                    out.push(Some(text_between(chars, from, to)));
                } else {
                    let empty = String::new();
                    assert(empty@ =~= Seq::<char>::empty());
                    out.push(Some(empty));
                }
            },
            None => {
                out.push(None);
            },
        }
        i = i + 1;
    }
    let found = Found { groups: out, start, end };
    assert(found@.groups =~= match_of(chars@, groups@).groups);
    found
}

/// All matches of a pattern in a text.
pub fn find_all(pattern: &str, text: &str) -> (found: Vec<Found>)
    ensures
        found_views(found@) == all_matches(pattern@, text@),
{
    let chars = chars_of(text);
    let offsets = offsets_of(&chars, text);
    let mut found: Vec<Found> = Vec::new();
    let mut from: usize = 0;
    let mut last_end: Option<usize> = None;
    let ghost mut last: Option<int> = None;
    assert(found_views(found@) =~= Seq::<MatchView>::empty());
    assert(found_views(found@) + matches_from(pattern@, text@, 0, None) =~= all_matches(
        pattern@,
        text@,
    ));
    while from <= chars.len()
        invariant
            chars@ == text@,
            offsets@.len() == text@.len() + 1,
            forall|i: int| 0 <= i <= text@.len() ==> #[trigger] offsets@[i] == byte_at(text@, i),
            offsets@.last() == encode_utf8(text@).len(),
            0 <= from <= text@.len() + 1,
            last == match last_end {
                Some(e) => Some(e as int),
                None => None,
            },
            found_views(found@) + matches_from(pattern@, text@, from as int, last) == all_matches(
                pattern@,
                text@,
            ),
        decreases
                text@.len() + 1 - from,
                (if last == Some(from as int) {
                    0int
                } else {
                    1
                }),
    {
        assert(offsets@[from as int] == byte_at(text@, from as int));
        proof {
            lemma_bytes_grow(text@, from as int, text@.len() as int);
            assert(text@.take(text@.len() as int) =~= text@);
        }
        let offset: usize = offsets[from];
        match search(pattern, text, offset) {
            None => {
                assert(found_views(found@) + Seq::<MatchView>::empty() =~= found_views(found@));
                return found;
            },
            Some(groups) => {
                let one = describe(&chars, &offsets, &groups);
                if one.end < from {
                    assert(found_views(found@) + Seq::<MatchView>::empty() =~= found_views(found@));
                    return found;
                }
                let again = match last_end {
                    Some(e) => e == one.end,
                    None => false,
                };
                if again && (one.start == one.end || one.end == from) {
                    assert(offsets@.len() == offsets.len());
                    from = from + 1;
                } else {
                    let ghost before = found_views(found@);
                    let end: usize = one.end;
                    found.push(one);
                    last_end = Some(end);
                    proof {
                        last = Some(end as int);
                        assert(found_views(found@) =~= before.push(one@));
                        assert(found_views(found@) + matches_from(
                            pattern@,
                            text@,
                            end as int,
                            last,
                        ) =~= before + (seq![one@] + matches_from(
                            pattern@,
                            text@,
                            end as int,
                            last,
                        )));
                    }
                    from = end;
                }
            },
        }
    }
    assert(found_views(found@) + Seq::<MatchView>::empty() =~= found_views(found@));
    found
}

// ---------------------------------------------------------------------------
// Templates.

/// The text of a group by its number. Empty where there is none.
pub open spec fn group_or_empty(groups: Seq<Option<Seq<char>>>, n: int) -> Seq<char> {
    if 0 <= n < groups.len() {
        match groups[n] {
            Some(text) => text,
            None => Seq::empty(),
        }
    } else {
        Seq::empty()
    }
}

/// A template with its references replaced: a backslash and a digit stand for a
/// group, two backslashes for one.
pub open spec fn substituted(template: Seq<char>, groups: Seq<Option<Seq<char>>>) -> Seq<char>
    decreases template.len(),
{
    if template.len() == 0 {
        Seq::empty()
    } else if template[0] != '\\' {
        seq![template[0]] + substituted(template.skip(1), groups)
    } else if template.len() > 1 && '0' <= template[1] <= '9' {
        group_or_empty(groups, template[1] as int - '0' as int) + substituted(
            template.skip(2),
            groups,
        )
    } else if template.len() > 1 && template[1] == '\\' {
        seq!['\\'] + substituted(template.skip(2), groups)
    } else {
        seq!['\\'] + substituted(template.skip(1), groups)
    }
}

/// Replaces the references in a template.
pub fn substitute(template: &str, groups: &Vec<Option<String>>) -> (out: String)
    ensures
        out@ == substituted(template@, group_texts(groups@)),
{
    let chars = chars_of(template);
    let mut out = String::new();
    let mut i: usize = 0;
    let ghost g = group_texts(groups@);
    assert(template@.skip(0) =~= template@);
    assert(out@ + substituted(template@.skip(0), g) =~= substituted(template@, g));
    while i < chars.len()
        invariant
            i <= chars@.len(),
            chars@ == template@,
            g == group_texts(groups@),
            out@ + substituted(template@.skip(i as int), g) == substituted(template@, g),
        decreases chars.len() - i,
    {
        let ghost before = out@;
        let ghost rest = template@.skip(i as int);
        assert(rest.skip(1) =~= template@.skip(i + 1));
        assert(i + 2 <= chars@.len() ==> rest.skip(2) =~= template@.skip(i + 2));
        let c: char = chars[i];
        if c != '\\' {
            out.push(c);
            i = i + 1;
            assert(out@ + substituted(template@.skip(i as int), g) =~= before + substituted(rest, g));
        } else if i + 1 < chars.len() && '0' <= chars[i + 1] && chars[i + 1] <= '9' {
            let n: usize = chars[i + 1] as usize - '0' as usize;
            if n < groups.len() {
                assert(g[n as int] == opt_text(groups@[n as int]));
                if let Some(text) = &groups[n] {
                    vstd::string::StringExecFns::append(&mut out, text.as_str());
                }
            }
            i = i + 2;
            assert(out@ =~= before + group_or_empty(g, n as int));
            assert(out@ + substituted(template@.skip(i as int), g) =~= before + substituted(rest, g));
        } else if i + 1 < chars.len() && chars[i + 1] == '\\' {
            out.push('\\');
            i = i + 2;
            assert(out@ + substituted(template@.skip(i as int), g) =~= before + substituted(rest, g));
        } else {
            out.push('\\');
            i = i + 1;
            assert(out@ + substituted(template@.skip(i as int), g) =~= before + substituted(rest, g));
        }
    }
    assert(template@.skip(i as int) =~= Seq::<char>::empty());
    assert(out@ + substituted(template@.skip(i as int), g) =~= out@);
    out
}

/// The columns of a match: at least one.
pub open spec fn span_of(m: MatchView) -> (int, int) {
    let end = if m.end > 0 {
        m.end - 1
    } else {
        0
    };
    (
        m.start,
        if end > m.start {
            end
        } else {
            m.start
        },
    )
}

pub fn span(found: &Found) -> (columns: (usize, usize))
    ensures
        (columns.0 as int, columns.1 as int) == span_of(found@),
{
    let end: usize = if found.end > 0 {
        found.end - 1
    } else {
        0
    };
    (
        found.start,
        if end > found.start {
            end
        } else {
            found.start
        },
    )
}

} // verus!
