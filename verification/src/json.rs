//! JSON text: what is written of a pane, and what is read back.
use crate::cli::{shown_foreground, visible_foreground, PaneFacts};
use crate::pane::{opt_text, texts, PaneMeta};
use crate::text::{number_text, push_number, signed_text, signed_to_text};
use vstd::prelude::*;
use vstd::string::StringExecFns;

verus! {

/// The JSON string literal of a text, as `serde_json` writes it.
pub uninterp spec fn json_quoted(text: Seq<char>) -> Seq<char>;

/// `serde_json::to_string` on a string slice, which cannot fail. How the
/// text is quoted and escaped is only named.
#[verifier::external_body]
pub(crate) fn quote(text: &str) -> (literal: String)
    ensures
        literal@ == json_quoted(text@),
{
    serde_json::to_string(text).unwrap_or_default()
}

pub open spec fn json_optional(text: Option<Seq<char>>) -> Seq<char> {
    match text {
        Some(t) => json_quoted(t),
        None => "null"@,
    }
}

/// What a daemon tells a client about its pane.
pub open spec fn hello_json(cwd: Option<Seq<char>>, pane_id: Seq<char>, program: Seq<char>) -> Seq<
    char,
> {
    "{\"cwd\":"@ + json_optional(cwd) + ",\"pane_id\":"@ + json_quoted(pane_id) + ",\"program\":"@
        + json_quoted(program) + "}"@
}

pub fn write_hello(cwd: &Option<String>, pane_id: &str, program: &str) -> (json: String)
    ensures
        json@ == hello_json(crate::pane::opt_text(*cwd), pane_id@, program@),
{
    let mut json: String = "{\"cwd\":".to_owned();
    match cwd {
        Some(dir) => json.append(quote(dir.as_str()).as_str()),
        None => json.append("null"),
    }
    json.append(",\"pane_id\":");
    json.append(quote(pane_id).as_str());
    json.append(",\"program\":");
    json.append(quote(program).as_str());
    json.append("}");
    json
}

/// What a daemon tells the process that launched it.
pub open spec fn handshake_json(
    pane_id: Seq<char>,
    socket: Seq<char>,
    daemon_pid: int,
    shell_pid: int,
) -> Seq<char> {
    "{\"daemon_pid\":"@ + signed_text(daemon_pid) + ",\"pane_id\":"@ + json_quoted(pane_id)
        + ",\"shell_pid\":"@ + signed_text(shell_pid) + ",\"socket\":"@ + json_quoted(socket)
        + "}"@
}

pub fn write_handshake(pane_id: &str, socket: &str, daemon_pid: i32, shell_pid: i32) -> (json:
    String)
    ensures
        json@ == handshake_json(pane_id@, socket@, daemon_pid as int, shell_pid as int),
{
    let mut json: String = "{\"daemon_pid\":".to_owned();
    json.append(signed_to_text(daemon_pid).as_str());
    json.append(",\"pane_id\":");
    json.append(quote(pane_id).as_str());
    json.append(",\"shell_pid\":");
    json.append(signed_to_text(shell_pid).as_str());
    json.append(",\"socket\":");
    json.append(quote(socket).as_str());
    json.append("}");
    json
}

/// What a daemon tells instead when it could not start the shell.
pub open spec fn failure_json(message: Seq<char>) -> Seq<char> {
    "{\"error\":"@ + json_quoted(message) + "}"@
}

pub fn write_failure(message: &str) -> (json: String)
    ensures
        json@ == failure_json(message@),
{
    let mut json: String = "{\"error\":".to_owned();
    json.append(quote(message).as_str());
    json.append("}");
    json
}

/// Literals with commas between them.
pub open spec fn comma_separated(items: Seq<Seq<char>>) -> Seq<char>
    decreases items.len(),
{
    if items.len() == 0 {
        Seq::empty()
    } else if items.len() == 1 {
        items[0]
    } else {
        comma_separated(items.drop_last()) + ","@ + items.last()
    }
}

pub open spec fn quoted_all(items: Seq<Seq<char>>) -> Seq<Seq<char>> {
    Seq::new(items.len(), |i: int| json_quoted(items[i]))
}

fn append_args(json: &mut String, args: &Vec<String>)
    ensures
        final(json)@ == old(json)@ + ("["@ + comma_separated(quoted_all(texts(args@))) + "]"@),
{
    json.append("[");
    let ghost start = json@;
    let ghost all = quoted_all(texts(args@));
    let mut i: usize = 0;
    assert(all.take(0) =~= Seq::<Seq<char>>::empty());
    assert(json@ =~= start + comma_separated(all.take(0)));
    while i < args.len()
        invariant
            i <= args@.len(),
            all == quoted_all(texts(args@)),
            json@ == start + comma_separated(all.take(i as int)),
        decreases args.len() - i,
    {
        let ghost before = json@;
        if i > 0 {
            json.append(",");
        }
        json.append(quote(args[i].as_str()).as_str());
        proof {
            let next = all.take(i + 1);
            assert(next.drop_last() =~= all.take(i as int));
            assert(next.last() == json_quoted(args@[i as int]@));
            assert(json@ =~= start + comma_separated(next));
        }
        i = i + 1;
    }
    assert(all.take(i as int) =~= all);
    json.append("]");
    assert(json@ =~= old(json)@ + ("["@ + comma_separated(all) + "]"@));
}

pub open spec fn json_bool(value: bool) -> Seq<char> {
    if value {
        "true"@
    } else {
        "false"@
    }
}

pub open spec fn json_status(status: Option<i32>) -> Seq<char> {
    match status {
        Some(code) => signed_text(code as int),
        None => "null"@,
    }
}

/// One pane of a listing.
pub open spec fn entry_json(m: PaneMeta, f: PaneFacts) -> Seq<char> {
    "{\"alive\":"@ + json_bool(f.alive) + ",\"args\":"@ + ("["@ + comma_separated(
        quoted_all(texts(m.args@)),
    ) + "]"@) + ",\"created_at\":"@ + number_text(m.created_at as nat) + ",\"cwd\":"@
        + json_optional(opt_text(m.cwd)) + ",\"daemon_pid\":"@ + signed_text(m.daemon_pid as int)
        + ",\"exited_status\":"@ + json_status(m.exited_status) + ",\"foreground\":"@
        + json_optional(shown_foreground(m, f)) + ",\"pane_id\":"@ + json_quoted(m.pane_id@)
        + ",\"program\":"@ + json_quoted(m.program@) + ",\"session\":"@ + json_optional(
        opt_text(m.session),
    ) + ",\"shell_pid\":"@ + signed_text(m.shell_pid as int) + "}"@
}

fn append_optional(json: &mut String, text: &Option<String>)
    ensures
        final(json)@ == old(json)@ + json_optional(opt_text(*text)),
{
    match text {
        Some(t) => json.append(quote(t.as_str()).as_str()),
        None => json.append("null"),
    }
}

fn write_entry(m: &PaneMeta, f: &PaneFacts) -> (json: String)
    ensures
        json@ == entry_json(*m, *f),
{
    let mut json: String = "{\"alive\":".to_owned();
    json.append(
        if f.alive {
            "true"
        } else {
            "false"
        },
    );
    json.append(",\"args\":");
    append_args(&mut json, &m.args);
    json.append(",\"created_at\":");
    push_number(&mut json, m.created_at);
    json.append(",\"cwd\":");
    append_optional(&mut json, &m.cwd);
    json.append(",\"daemon_pid\":");
    json.append(signed_to_text(m.daemon_pid).as_str());
    json.append(",\"exited_status\":");
    match m.exited_status {
        Some(code) => json.append(signed_to_text(code).as_str()),
        None => json.append("null"),
    }
    json.append(",\"foreground\":");
    append_optional(&mut json, &visible_foreground(m, f));
    json.append(",\"pane_id\":");
    json.append(quote(m.pane_id.as_str()).as_str());
    json.append(",\"program\":");
    json.append(quote(m.program.as_str()).as_str());
    json.append(",\"session\":");
    append_optional(&mut json, &m.session);
    json.append(",\"shell_pid\":");
    json.append(signed_to_text(m.shell_pid).as_str());
    json.append("}");
    json
}

pub open spec fn entries_json(panes: Seq<PaneMeta>, facts: Seq<PaneFacts>) -> Seq<Seq<char>> {
    Seq::new(panes.len(), |i: int| entry_json(panes[i], facts[i]))
}

/// A listing for programs.
pub open spec fn list_json(panes: Seq<PaneMeta>, facts: Seq<PaneFacts>) -> Seq<char> {
    "["@ + comma_separated(entries_json(panes, facts)) + "]"@
}

pub fn write_list(panes: &Vec<PaneMeta>, facts: &Vec<PaneFacts>) -> (json: String)
    requires
        panes@.len() == facts@.len(),
    ensures
        json@ == list_json(panes@, facts@),
{
    let mut json: String = "[".to_owned();
    let ghost all = entries_json(panes@, facts@);
    let mut i: usize = 0;
    assert(all.take(0) =~= Seq::<Seq<char>>::empty());
    assert(json@ =~= "["@ + comma_separated(all.take(0)));
    while i < panes.len()
        invariant
            i <= panes@.len(),
            panes@.len() == facts@.len(),
            all == entries_json(panes@, facts@),
            json@ == "["@ + comma_separated(all.take(i as int)),
        decreases panes.len() - i,
    {
        if i > 0 {
            json.append(",");
        }
        json.append(write_entry(&panes[i], &facts[i]).as_str());
        proof {
            let next = all.take(i + 1);
            assert(next.drop_last() =~= all.take(i as int));
            assert(next.last() == entry_json(panes@[i as int], facts@[i as int]));
            assert(json@ =~= "["@ + comma_separated(next));
        }
        i = i + 1;
    }
    assert(all.take(i as int) =~= all);
    json.append("]");
    json
}

/// Why a text is no JSON, as `serde_json` says it. None where it is.
pub uninterp spec fn json_fault(text: Seq<char>) -> Option<Seq<char>>;

/// `serde_json::from_str` to a value: its error in words. What is JSON is only
/// named, but that the handshake of a daemon is.
#[verifier::external_body]
pub(crate) fn fault_of(text: &str) -> (fault: Option<String>)
    ensures
        opt_text(fault) == json_fault(text@),
        forall|id: Seq<char>, socket: Seq<char>, daemon: i32, shell: i32|
            text@ == #[trigger] handshake_json(id, socket, daemon as int, shell as int) ==> fault is None,
{
    serde_json::from_str::<serde_json::Value>(text).err().map(|e| e.to_string())
}

/// The string under a key of a JSON object.
pub uninterp spec fn json_string_field(text: Seq<char>, key: Seq<char>) -> Option<Seq<char>>;

/// `serde_json::from_str` to a value, then `Value::get` and `Value::as_str`.
/// How JSON is read is only named, but that a string is read back as it was
/// quoted from the objects that this module writes.
#[verifier::external_body]
pub(crate) fn string_field(text: &str, key: &str) -> (field: Option<String>)
    ensures
        opt_text(field) == json_string_field(text@, key@),
        forall|cwd: Option<Seq<char>>, id: Seq<char>, program: Seq<char>|
            text@ == #[trigger] hello_json(cwd, id, program) && key@ == "cwd"@ ==> opt_text(field)
                == cwd,
        forall|id: Seq<char>, socket: Seq<char>, daemon: i32, shell: i32|
            text@ == #[trigger] handshake_json(id, socket, daemon as int, shell as int) ==> {
                &&& key@ == "pane_id"@ ==> opt_text(field) == Some(id)
                &&& key@ == "socket"@ ==> opt_text(field) == Some(socket)
            },
        forall|m: PaneMeta, f: PaneFacts|
            text@ == #[trigger] entry_json(m, f) ==> {
                &&& key@ == "pane_id"@ ==> opt_text(field) == Some(m.pane_id@)
                &&& key@ == "program"@ ==> opt_text(field) == Some(m.program@)
                &&& key@ == "cwd"@ ==> opt_text(field) == opt_text(m.cwd)
            },
{
    let value: serde_json::Value = serde_json::from_str(text).ok()?;
    Some(value.get(key)?.as_str()?.to_string())
}

/// The truth value under a key of a JSON object.
pub uninterp spec fn json_bool_field(text: Seq<char>, key: Seq<char>) -> Option<bool>;

/// `serde_json::from_str` to a value, then `Value::get` and `Value::as_bool`.
#[verifier::external_body]
pub(crate) fn bool_field(text: &str, key: &str) -> (field: Option<bool>)
    ensures
        field == json_bool_field(text@, key@),
        forall|m: PaneMeta, f: PaneFacts|
            text@ == #[trigger] entry_json(m, f) && key@ == "alive"@ ==> field == Some(f.alive),
{
    let value: serde_json::Value = serde_json::from_str(text).ok()?;
    value.get(key)?.as_bool()
}

/// The number under a key of a JSON object.
pub uninterp spec fn json_int_field(text: Seq<char>, key: Seq<char>) -> Option<i64>;

/// `serde_json::from_str` to a value, then `Value::get` and `Value::as_i64`.
#[verifier::external_body]
pub(crate) fn int_field(text: &str, key: &str) -> (field: Option<i64>)
    ensures
        field == json_int_field(text@, key@),
        forall|m: PaneMeta, f: PaneFacts|
            text@ == #[trigger] entry_json(m, f) && key@ == "exited_status"@ ==> field == match m.exited_status {
                Some(code) => Some(code as i64),
                None => None,
            },
{
    let value: serde_json::Value = serde_json::from_str(text).ok()?;
    value.get(key)?.as_i64()
}

/// The elements of a JSON array, each as compact JSON, or why the text is none.
pub uninterp spec fn json_elements(text: Seq<char>) -> Result<Seq<Seq<char>>, Seq<char>>;

/// The mathematical value of what [`elements`] returns.
pub open spec fn elements_value(items: Result<Vec<String>, String>) -> Result<
    Seq<Seq<char>>,
    Seq<char>,
> {
    match items {
        Ok(all) => Ok(texts(all@)),
        Err(fault) => Err(fault@),
    }
}

/// `serde_json::from_str` to a vector of values, each written again by
/// `Value`'s `to_string`, or the error in words. Only named, but that the
/// listing of this module is taken apart into the entries it was made of.
#[verifier::external_body]
pub(crate) fn elements(text: &str) -> (items: Result<Vec<String>, String>)
    ensures
        elements_value(items) == json_elements(text@),
        forall|panes: Seq<PaneMeta>, facts: Seq<PaneFacts>|
            text@ == #[trigger] list_json(panes, facts) ==> elements_value(items) is Ok
                && elements_value(items)->Ok_0 == entries_json(panes, facts),
{
    let parsed: Result<Vec<serde_json::Value>, serde_json::Error> = serde_json::from_str(text);
    match parsed {
        Ok(all) => Ok(all.iter().map(|item| item.to_string()).collect()),
        Err(fault) => Err(fault.to_string()),
    }
}

} // verus!
