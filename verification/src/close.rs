//! What closing and quitting do with a session, and the names of sessions.
use crate::cli::{lemma_lex_antisymmetric, lemma_lex_transitive, lex_order, order_texts};
use crate::config::SessionRestore;
use crate::pane::texts;
use crate::text::{chars_of, ends_with, has_suffix, text_between};
use crate::words::{trim_text, trimmed_text};
use vstd::prelude::*;

verus! {

/// What a closing window does with its session.
#[derive(Clone, Copy, Debug, PartialEq, Eq, Structural)]
pub enum CloseDisposition {
    /// It is saved silently.
    Save,
    /// The user is asked, and the answer decides.
    Prompt,
    /// Nothing is saved.
    Nothing,
}

/// What a closing window does with its session. In automatic mode every session
/// is saved; in asking mode every one is asked for; with sessions off a named
/// one is still asked for, since the name says that it is to be kept.
pub open spec fn disposition(named: bool, mode: SessionRestore) -> CloseDisposition {
    match mode {
        SessionRestore::Always => CloseDisposition::Save,
        SessionRestore::Prompt => CloseDisposition::Prompt,
        SessionRestore::Never => if named {
            CloseDisposition::Prompt
        } else {
            CloseDisposition::Nothing
        },
    }
}

pub fn close_disposition(named: bool, mode: SessionRestore) -> (d: CloseDisposition)
    ensures
        d == disposition(named, mode),
{
    match mode {
        SessionRestore::Always => CloseDisposition::Save,
        SessionRestore::Prompt => CloseDisposition::Prompt,
        SessionRestore::Never => if named {
            CloseDisposition::Prompt
        } else {
            CloseDisposition::Nothing
        },
    }
}

/// Whether quitting writes a session: one that would be asked for only where the
/// answer was yes.
pub open spec fn writes_on_quit(named: bool, mode: SessionRestore, consented: bool) -> bool {
    match disposition(named, mode) {
        CloseDisposition::Save => true,
        CloseDisposition::Prompt => consented,
        CloseDisposition::Nothing => false,
    }
}

pub fn write_on_quit(named: bool, mode: SessionRestore, consented: bool) -> (writes: bool)
    ensures
        writes == writes_on_quit(named, mode, consented),
{
    match close_disposition(named, mode) {
        CloseDisposition::Save => true,
        CloseDisposition::Prompt => consented,
        CloseDisposition::Nothing => false,
    }
}

/// Where the mode promises to ask, nothing is written without a yes.
pub proof fn law_nothing_is_written_unasked(named: bool, mode: SessionRestore)
    ensures
        mode != SessionRestore::Always ==> !writes_on_quit(named, mode, false),
        mode == SessionRestore::Always ==> writes_on_quit(named, mode, false),
{
}

// ---------------------------------------------------------------------------
// Names.

/// Whether a character may stand in the name of a file as it is.
pub open spec fn is_name_char(c: char) -> bool {
    ('a' <= c <= 'z') || ('A' <= c <= 'Z') || ('0' <= c <= '9') || c == '.' || c == '_' || c == '-'
}

/// A name without blanks around it and with other characters made dashes.
pub open spec fn name_of(name: Seq<char>) -> Seq<char> {
    let text = trimmed_text(name);
    Seq::new(
        text.len(),
        |i: int|
            if is_name_char(text[i]) {
                text[i]
            } else {
                '-'
            },
    )
}

/// Makes a name safe for a file.
pub fn sanitize_name(name: &str) -> (out: String)
    ensures
        out@ == name_of(name@),
{
    let text = trim_text(name);
    let chars = chars_of(text.as_str());
    let mut out = String::new();
    let mut i: usize = 0;
    while i < chars.len()
        invariant
            i <= chars@.len(),
            chars@ == trimmed_text(name@),
            out@ =~= name_of(name@).take(i as int),
        decreases chars.len() - i,
    {
        let c: char = chars[i];
        if ('a' <= c && c <= 'z') || ('A' <= c && c <= 'Z') || ('0' <= c && c <= '9') || c == '.'
            || c == '_' || c == '-' {
            out.push(c);
        } else {
            out.push('-');
        }
        i = i + 1;
    }
    assert(out@ =~= name_of(name@));
    out
}

/// A name that was made safe holds only letters, digits and three signs: no
/// separator of paths.
pub proof fn law_names_are_safe(name: Seq<char>, i: int)
    requires
        0 <= i < name_of(name).len(),
    ensures
        is_name_char(name_of(name)[i]),
        name_of(name)[i] != '/',
{
}

/// The session names among file names, in their order.
pub open spec fn stems(files: Seq<Seq<char>>) -> Seq<Seq<char>>
    decreases files.len(),
{
    if files.len() == 0 {
        Seq::empty()
    } else {
        let before = stems(files.drop_last());
        let file = files.last();
        if is_session_file(file) {
            before.push(file.take(file.len() - 5))
        } else {
            before
        }
    }
}

/// Whether a file holds a session: its name has the extension, and something
/// before it.
pub open spec fn is_session_file(file: Seq<char>) -> bool {
    file.len() > 5 && ends_with(file, ".json"@)
}

/// Alphabetical order.
pub open spec fn in_order(names: Seq<Seq<char>>) -> bool {
    forall|i: int, j: int|
        0 <= i < j < names.len() ==> lex_order(#[trigger] names[i], #[trigger] names[j]) <= 0
}

fn insert_sorted(names: &mut Vec<String>, name: String)
    requires
        in_order(texts(old(names)@)),
    ensures
        in_order(texts(final(names)@)),
        texts(final(names)@).to_multiset() == texts(old(names)@).to_multiset().insert(name@),
{
    let ghost before = texts(names@);
    let ghost value = name@;
    let mut at: usize = names.len();
    while at > 0
        invariant_except_break
            at <= names@.len(),
            before == texts(names@),
            value == name@,
            forall|j: int| at <= j < before.len() ==> lex_order(#[trigger] before[j], value) > 0,
        ensures
            at <= names@.len(),
            before == texts(names@),
            value == name@,
            forall|j: int| at <= j < before.len() ==> lex_order(#[trigger] before[j], value) > 0,
            at > 0 ==> lex_order(before[at - 1], value) <= 0,
        decreases at,
    {
        if order_texts(names[at - 1].as_str(), name.as_str()) <= 0 {
            break;
        }
        at = at - 1;
    }
    names.insert(at, name);
    proof {
        let after = texts(names@);
        assert(after =~= before.insert(at as int, value));
        assert forall|i: int, j: int| 0 <= i < j < after.len() implies lex_order(
            #[trigger] after[i],
            #[trigger] after[j],
        ) <= 0 by {
            if j < at {
                assert(lex_order(before[i], before[j]) <= 0);
            } else if j == at {
                if i < at - 1 {
                    assert(lex_order(before[i], before[at - 1]) <= 0);
                    lemma_lex_antisymmetric(before[i], before[at - 1]);
                    lemma_lex_antisymmetric(before[at - 1], value);
                    if lex_order(before[i], before[at - 1]) < 0 && lex_order(before[at - 1], value)
                        < 0 {
                        lemma_lex_transitive(before[i], before[at - 1], value);
                    }
                }
            } else if i == at {
                lemma_lex_antisymmetric(before[j - 1], value);
            } else if i < at {
                assert(lex_order(before[i], before[j - 1]) <= 0);
            } else {
                assert(lex_order(before[i - 1], before[j - 1]) <= 0);
            }
        }
        before.to_multiset_ensures();
        after.to_multiset_ensures();
        assert(after.remove(at as int) =~= before);
        assert(after.contains(value)) by {
            assert(after[at as int] == value);
        }
        assert(after.to_multiset() =~= before.to_multiset().insert(value));
    }
}

/// The names of the saved sessions in a directory, in alphabetical order.
pub fn session_names(files: &Vec<String>) -> (names: Vec<String>)
    ensures
        in_order(texts(names@)),
        texts(names@).to_multiset() == stems(texts(files@)).to_multiset(),
{
    let mut names: Vec<String> = Vec::new();
    let ghost all = texts(files@);
    assert(all.take(0) =~= Seq::<Seq<char>>::empty());
    assert(texts(names@) =~= stems(all.take(0)));
    let mut i: usize = 0;
    while i < files.len()
        invariant
            i <= files@.len(),
            all == texts(files@),
            in_order(texts(names@)),
            texts(names@).to_multiset() == stems(all.take(i as int)).to_multiset(),
        decreases files.len() - i,
    {
        let file = files[i].as_str();
        assert(all.take(i + 1).drop_last() =~= all.take(i as int));
        assert(all.take(i + 1).last() == file@);
        let chars = chars_of(file);
        if chars.len() > 5 && has_suffix(file, ".json") {
            let name = text_between(&chars, 0, chars.len() - 5);
            assert(name@ =~= file@.take(file@.len() - 5));
            let ghost before = stems(all.take(i as int));
            proof {
                before.to_multiset_ensures();
            }
            insert_sorted(&mut names, name);
        }
        i = i + 1;
    }
    assert(all.take(i as int) =~= all);
    names
}

} // verus!
