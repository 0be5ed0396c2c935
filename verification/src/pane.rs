//! Panes: their ids, their files and their recorded metadata.
use crate::text::{chars_of, has_prefix, hex_byte, push_hex_byte, starts_with};
use vstd::prelude::*;
use vstd::string::StringExecFns;
use vstd::utf8::{encode_utf8, is_ascii_chars, is_ascii_chars_encode_utf8};

verus! {

pub const METADATA_VERSION: u32 = 1;

/// Characters of a full pane id.
pub const PANE_ID_LEN: usize = 32;

/// Characters of the prefix that listings show.
pub const SHORT_PANE_ID_LEN: usize = 8;

/// Seconds by which a process may seem to have started after its pane was
/// recorded.
pub const START_SLACK_SECS: u64 = 5;

/// What is recorded of a pane.
#[derive(Clone, Debug)]
pub struct PaneMeta {
    pub version: u32,
    pub pane_id: String,
    pub daemon_pid: i32,
    pub shell_pid: i32,
    pub program: String,
    pub args: Vec<String>,
    pub cwd: Option<String>,
    pub created_at: u64,
    pub exited_status: Option<i32>,
    /// When the shell exited, recorded as the daemon starts to linger. Absent
    /// while the shell runs.
    pub exited_at: Option<u64>,
    /// The session the pane belongs to. Absent outside named sessions.
    pub session: Option<String>,
}

/// The text of an optional string.
pub open spec fn opt_text(text: Option<String>) -> Option<Seq<char>> {
    match text {
        Some(t) => Some(t@),
        None => None,
    }
}

/// The texts of strings.
pub open spec fn texts(strings: Seq<String>) -> Seq<Seq<char>> {
    Seq::new(strings.len(), |i: int| strings[i]@)
}

/// A lowercase hexadecimal digit.
pub open spec fn is_lower_hex(c: char) -> bool {
    '0' <= c <= '9' || 'a' <= c <= 'f'
}

pub open spec fn all_lower_hex(chars: Seq<char>) -> bool {
    forall|i: int| 0 <= i < chars.len() ==> is_lower_hex(#[trigger] chars[i])
}

/// A full pane id: 32 lowercase hexadecimal digits.
pub open spec fn valid_pane_id(id: Seq<char>) -> bool {
    id.len() == PANE_ID_LEN && all_lower_hex(id)
}

/// A text that can be the beginning of a pane id.
pub open spec fn hex_prefix(id: Seq<char>) -> bool {
    0 < id.len() <= PANE_ID_LEN && all_lower_hex(id)
}

fn all_hex(chars: &Vec<char>) -> (all: bool)
    ensures
        all == all_lower_hex(chars@),
{
    let mut i: usize = 0;
    while i < chars.len()
        invariant
            i <= chars@.len(),
            forall|j: int| 0 <= j < i ==> is_lower_hex(#[trigger] chars@[j]),
        decreases chars.len() - i,
    {
        let c: char = chars[i];
        if !('0' <= c && c <= '9' || 'a' <= c && c <= 'f') {
            assert(!is_lower_hex(chars@[i as int]));
            return false;
        }
        i = i + 1;
    }
    true
}

/// Whether `id` is a full pane id.
pub fn is_valid_pane_id(id: &str) -> (valid: bool)
    ensures
        valid == valid_pane_id(id@),
{
    let chars = chars_of(id);
    chars.len() == PANE_ID_LEN && all_hex(&chars)
}

/// Whether `id` can be the beginning of a pane id.
pub fn is_hex_prefix(id: &str) -> (prefix: bool)
    ensures
        prefix == hex_prefix(id@),
{
    let chars = chars_of(id);
    0 < chars.len() && chars.len() <= PANE_ID_LEN && all_hex(&chars)
}

/// The pane ids that start with a prefix, in order.
pub open spec fn matching_ids(panes: Seq<PaneMeta>, prefix: Seq<char>) -> Seq<Seq<char>>
    decreases panes.len(),
{
    if panes.len() == 0 {
        Seq::empty()
    } else {
        let rest = matching_ids(panes.drop_last(), prefix);
        if starts_with(panes.last().pane_id@, prefix) {
            rest.push(panes.last().pane_id@)
        } else {
            rest
        }
    }
}

/// The pane an id or a prefix stands for: a full id for itself, a prefix for
/// the one pane that has it.
pub open spec fn resolved_id(id: Seq<char>, panes: Seq<PaneMeta>) -> Option<Seq<char>> {
    if valid_pane_id(id) {
        Some(id)
    } else if hex_prefix(id) && matching_ids(panes, id).len() == 1 {
        Some(matching_ids(panes, id)[0])
    } else {
        None
    }
}

/// Expands a full id or a unique prefix. A prefix that several panes have, or
/// none, is refused: it never acts on the wrong pane.
pub fn resolve_pane_id(panes: &Vec<PaneMeta>, id_or_prefix: &str) -> (id: Option<String>)
    ensures
        opt_text(id) == resolved_id(id_or_prefix@, panes@),
{
    if is_valid_pane_id(id_or_prefix) {
        return Some(id_or_prefix.to_owned());
    }
    if !is_hex_prefix(id_or_prefix) {
        return None;
    }
    let mut hit: Option<String> = None;
    let mut i: usize = 0;
    while i < panes.len()
        invariant
            i <= panes@.len(),
            ({
                let found = matching_ids(panes@.take(i as int), id_or_prefix@);
                match hit {
                    Some(id) => found.len() == 1 && found[0] == id@,
                    None => found.len() == 0,
                }
            }),
            !valid_pane_id(id_or_prefix@),
        decreases panes.len() - i,
    {
        proof {
            let after = panes@.take(i as int + 1);
            assert(after.drop_last() =~= panes@.take(i as int));
            assert(after.last() == panes@[i as int]);
        }
        if has_prefix(panes[i].pane_id.as_str(), id_or_prefix) {
            if hit.is_some() {
                proof {
                    lemma_matching_grows(panes@, id_or_prefix@, i as int + 1);
                }
                return None;
            }
            hit = Some(panes[i].pane_id.clone());
        }
        i = i + 1;
    }
    assert(panes@.take(i as int) =~= panes@);
    hit
}

proof fn lemma_matching_grows(panes: Seq<PaneMeta>, prefix: Seq<char>, i: int)
    requires
        0 <= i <= panes.len(),
    ensures
        matching_ids(panes.take(i), prefix).len() <= matching_ids(panes, prefix).len(),
    decreases panes.len() - i,
{
    if i < panes.len() {
        lemma_matching_grows(panes, prefix, i + 1);
        assert(panes.take(i + 1).drop_last() =~= panes.take(i));
    } else {
        assert(panes.take(i) =~= panes);
    }
}

/// A resolved id belongs to the pane asked for: it starts with what was given,
/// and it is a pane that exists, unless it was given in full.
pub proof fn law_resolution_is_safe(id: Seq<char>, panes: Seq<PaneMeta>)
    ensures
        resolved_id(id, panes) matches Some(full) ==> starts_with(full, id) && (valid_pane_id(id)
            || exists|i: int| 0 <= i < panes.len() && (#[trigger] panes[i]).pane_id@ == full),
{
    if valid_pane_id(id) {
        assert(id.take(id.len() as int) =~= id);
    } else if let Some(full) = resolved_id(id, panes) {
        lemma_matching_member(panes, id, 0);
    }
}

proof fn lemma_matching_member(panes: Seq<PaneMeta>, prefix: Seq<char>, k: int)
    requires
        0 <= k < matching_ids(panes, prefix).len(),
    ensures
        starts_with(matching_ids(panes, prefix)[k], prefix),
        exists|i: int|
            0 <= i < panes.len() && (#[trigger] panes[i]).pane_id@ == matching_ids(
                panes,
                prefix,
            )[k],
    decreases panes.len(),
{
    let init = panes.drop_last();
    let rest = matching_ids(init, prefix);
    if k < rest.len() {
        lemma_matching_member(init, prefix, k);
        let i = choose|i: int|
            0 <= i < init.len() && (#[trigger] init[i]).pane_id@ == rest[k];
        assert(panes[i].pane_id@ == matching_ids(panes, prefix)[k]);
    } else {
        assert(panes[panes.len() - 1].pane_id@ == matching_ids(panes, prefix)[k]);
    }
}

/// The hexadecimal text of bytes.
pub open spec fn hex_text(bytes: Seq<u8>) -> Seq<char>
    decreases bytes.len(),
{
    if bytes.len() == 0 {
        Seq::empty()
    } else {
        hex_text(bytes.drop_last()) + hex_byte(bytes.last())
    }
}

/// The pane id made of sixteen random bytes.
pub fn pane_id_from_bytes(bytes: &[u8; 16]) -> (id: String)
    ensures
        id@ == hex_text(bytes@),
        valid_pane_id(id@),
{
    let mut id = String::new();
    let mut i: usize = 0;
    while i < 16
        invariant
            i <= 16,
            id@ == hex_text(bytes@.take(i as int)),
            id@.len() == 2 * i,
            all_lower_hex(id@),
        decreases 16 - i,
    {
        let ghost before = id@;
        push_hex_byte(&mut id, bytes[i]);
        proof {
            let after = bytes@.take(i as int + 1);
            assert(after.drop_last() =~= bytes@.take(i as int));
            assert(after.last() == bytes@[i as int]);
            assert forall|j: int| 0 <= j < id@.len() implies is_lower_hex(#[trigger] id@[j]) by {
                if j < before.len() {
                    assert(id@[j] == before[j]);
                } else {
                    assert(id@[j] == hex_byte(bytes@[i as int])[j - before.len()]);
                }
            }
        }
        i = i + 1;
    }
    assert(bytes@.take(16) =~= bytes@);
    id
}

/// The byte between the parts of a path.
pub const SEPARATOR: u8 = 0x2F;

/// `base` and `name` as one path. Paths are bytes: nothing makes them text. An
/// absolute name stands for itself.
pub open spec fn joined(base: Seq<u8>, name: Seq<u8>) -> Seq<u8> {
    if name.len() > 0 && name[0] == SEPARATOR {
        name
    } else if base.len() == 0 || base.last() == SEPARATOR {
        base + name
    } else {
        base.push(SEPARATOR) + name
    }
}

/// The path of a pane's file in a directory.
pub open spec fn pane_file(base: Seq<u8>, pane_id: Seq<char>, suffix: Seq<char>) -> Seq<u8> {
    joined(base, encode_utf8(pane_id + suffix))
}

fn join(base: &[u8], name: String) -> (path: Vec<u8>)
    ensures
        path@ == joined(base@, encode_utf8(name@)),
{
    let bytes = name.as_str().as_bytes();
    let mut path: Vec<u8> = Vec::new();
    if bytes.len() > 0 && bytes[0] == SEPARATOR {
        path.extend_from_slice(bytes);
        return path;
    }
    path.extend_from_slice(base);
    if base.len() > 0 && base[base.len() - 1] != SEPARATOR {
        path.push(SEPARATOR);
    }
    path.extend_from_slice(bytes);
    path
}

/// The socket of a pane.
pub fn socket_path(base: &[u8], pane_id: &str) -> (path: Vec<u8>)
    ensures
        path@ == pane_file(base@, pane_id@, ".sock"@),
{
    join(base, pane_id.to_owned().concat(".sock"))
}

/// The metadata file of a pane.
pub fn meta_path(base: &[u8], pane_id: &str) -> (path: Vec<u8>)
    ensures
        path@ == pane_file(base@, pane_id@, ".json"@),
{
    join(base, pane_id.to_owned().concat(".json"))
}

/// Where the metadata of a pane is written before it takes the place of the
/// file.
pub fn meta_temp_path(base: &[u8], pane_id: &str) -> (path: Vec<u8>)
    ensures
        path@ == pane_file(base@, pane_id@, ".json.tmp"@),
{
    join(base, pane_id.to_owned().concat(".json.tmp"))
}

/// The log of a pane.
pub fn log_path(base: &[u8], pane_id: &str) -> (path: Vec<u8>)
    ensures
        path@ == pane_file(base@, pane_id@, ".log"@),
{
    join(base, pane_id.to_owned().concat(".log"))
}

/// The files of a valid pane lie directly in the base directory: the path is
/// that of the directory and one name.
pub proof fn law_pane_files_stay_inside(base: Seq<u8>, id: Seq<char>, suffix: Seq<char>)
    requires
        valid_pane_id(id),
        is_ascii_chars(suffix),
        !suffix.contains('/'),
    ensures
        ({
            let name = encode_utf8(id + suffix);
            &&& !name.contains(SEPARATOR)
            &&& pane_file(base, id, suffix) == base + name || pane_file(base, id, suffix)
                == base.push(SEPARATOR) + name
        }),
{
    let chars = id + suffix;
    assert forall|i: int| 0 <= i < chars.len() implies '\0' <= #[trigger] chars[i] <= '\u{7f}'
        && chars[i] != '/' by {
        if i < id.len() {
            assert(is_lower_hex(id[i]));
            assert(chars[i] == id[i]);
        } else {
            assert(chars[i] == suffix[i - id.len()]);
            assert(suffix.contains(suffix[i - id.len()]));
        }
    }
    is_ascii_chars_encode_utf8(chars);
    let name = encode_utf8(chars);
    assert forall|i: int| 0 <= i < name.len() implies #[trigger] name[i] != SEPARATOR by {
        assert(chars[i] as u8 == name[i]);
    }
    assert(chars[0] == id[0]);
    assert(name[0] != SEPARATOR);
}

/// Why the directory of the sockets cannot be used.
#[derive(Clone, Copy, Debug, PartialEq, Eq, Structural)]
pub enum DirFault {
    NotADirectory,
    /// It belongs to somebody else.
    Ownership,
    /// Others can enter it.
    Permissions,
}

/// The permission bits of everybody but the owner.
pub const OTHERS_BITS: u32 = 0x3F;

/// What keeps the directory of the sockets from being used, of several the
/// first: only a directory that the user owns and nobody else can enter will do.
pub fn directory_fault(is_dir: bool, owner: u32, user: u32, mode: u32) -> (fault: Option<DirFault>)
    ensures
        fault == if !is_dir {
            Some(DirFault::NotADirectory)
        } else if owner != user {
            Some(DirFault::Ownership)
        } else if mode & OTHERS_BITS != 0 {
            Some(DirFault::Permissions)
        } else {
            None
        },
{
    if !is_dir {
        Some(DirFault::NotADirectory)
    } else if owner != user {
        Some(DirFault::Ownership)
    } else if mode & OTHERS_BITS != 0 {
        Some(DirFault::Permissions)
    } else {
        None
    }
}

/// The panes that were made at a time, as they came.
pub open spec fn made_at(panes: Seq<PaneMeta>, time: u64) -> Seq<PaneMeta> {
    panes.filter(|m: PaneMeta| m.created_at == time)
}

/// Whether no pane comes before an older one.
pub open spec fn in_creation_order(panes: Seq<PaneMeta>) -> bool {
    forall|i: int, j: int|
        0 <= i < j < panes.len() ==> (#[trigger] panes[i]).created_at <= (
        #[trigger] panes[j]).created_at
}

proof fn lemma_made_at_none(panes: Seq<PaneMeta>, time: u64)
    requires
        forall|i: int| 0 <= i < panes.len() ==> (#[trigger] panes[i]).created_at != time,
    ensures
        made_at(panes, time) == Seq::<PaneMeta>::empty(),
    decreases panes.len(),
{
    reveal(Seq::filter);
    if panes.len() > 0 {
        assert(panes.last() == panes[panes.len() - 1]);
        assert forall|i: int| 0 <= i < panes.drop_last().len() implies (
        #[trigger] panes.drop_last()[i]).created_at != time by {
            assert(panes.drop_last()[i] == panes[i]);
        }
        lemma_made_at_none(panes.drop_last(), time);
    } else {
        assert(made_at(panes, time) =~= Seq::<PaneMeta>::empty());
    }
}

/// A pane put behind those that are as old or older comes last among those of
/// its time.
proof fn lemma_made_at_insert(panes: Seq<PaneMeta>, at: int, m: PaneMeta, time: u64)
    requires
        0 <= at <= panes.len(),
        forall|i: int| at <= i < panes.len() ==> (#[trigger] panes[i]).created_at > m.created_at,
    ensures
        made_at(panes.insert(at, m), time) == made_at(panes.push(m), time),
{
    let test = |x: PaneMeta| x.created_at == time;
    let front = panes.take(at);
    let back = panes.skip(at);
    let one = seq![m];
    assert(panes =~= front + back);
    assert(panes.insert(at, m) =~= (front + one) + back);
    assert(panes.push(m) =~= (front + back) + one);
    Seq::filter_distributes_over_add(front + one, back, test);
    Seq::filter_distributes_over_add(front, one, test);
    Seq::filter_distributes_over_add(front + back, one, test);
    Seq::filter_distributes_over_add(front, back, test);
    if m.created_at == time {
        assert forall|i: int| 0 <= i < back.len() implies (#[trigger] back[i]).created_at
            != time by {
            assert(back[i] == panes[at + i]);
        }
        lemma_made_at_none(back, time);
    } else {
        lemma_made_at_none(one, time);
    }
    assert(made_at(panes.insert(at, m), time) =~= made_at(panes.push(m), time));
}

/// The panes in the order of their creation; those of one time as they came.
pub fn by_creation(panes: Vec<PaneMeta>) -> (sorted: Vec<PaneMeta>)
    ensures
        in_creation_order(sorted@),
        sorted@.to_multiset() == panes@.to_multiset(),
        forall|time: u64| #[trigger] made_at(sorted@, time) == made_at(panes@, time),
{
    let ghost all = panes@;
    let mut sorted: Vec<PaneMeta> = Vec::new();
    assert(all.take(0) =~= sorted@);
    for m in it: panes
        invariant
            it.seq() == all,
            in_creation_order(sorted@),
            sorted@.to_multiset() == all.take(it.index() as int).to_multiset(),
            forall|time: u64| #[trigger]
                made_at(sorted@, time) == made_at(all.take(it.index() as int), time),
    {
        let ghost k = it.index() as int;
        let ghost before = sorted@;
        let ghost taken = all.take(k);
        assert(m == all[k]);
        assert(all.take(k + 1) =~= taken.push(m));
        let mut j: usize = sorted.len();
        while j > 0 && sorted[j - 1].created_at > m.created_at
            invariant
                j <= sorted@.len(),
                sorted@ == before,
                forall|i: int| j <= i < before.len() ==> (#[trigger] before[i]).created_at
                    > m.created_at,
            decreases j,
        {
            j = j - 1;
        }
        sorted.insert(j, m);
        proof {
            assert forall|a: int, b: int| 0 <= a < b < sorted@.len() implies (
            #[trigger] sorted@[a]).created_at <= (#[trigger] sorted@[b]).created_at by {
                if a < j {
                    assert(sorted@[a] == before[a]);
                    assert(before[a].created_at <= before[j - 1].created_at);
                } else if a > j {
                    assert(sorted@[a] == before[a - 1]);
                }
                if b < j {
                    assert(sorted@[b] == before[b]);
                } else if b > j {
                    assert(sorted@[b] == before[b - 1]);
                }
            }
            assert(sorted@.remove(j as int) =~= before);
            assert(sorted@.contains(sorted@[j as int]));
            sorted@.to_multiset_ensures();
            taken.to_multiset_ensures();
            assert(sorted@.to_multiset() =~= before.to_multiset().insert(m));
            assert forall|time: u64| #[trigger] made_at(sorted@, time) == made_at(
                taken.push(m),
                time,
            ) by {
                lemma_made_at_insert(before, j as int, m, time);
                let test = |x: PaneMeta| x.created_at == time;
                assert(before.push(m) =~= before + seq![m]);
                assert(taken.push(m) =~= taken + seq![m]);
                Seq::filter_distributes_over_add(before, seq![m], test);
                Seq::filter_distributes_over_add(taken, seq![m], test);
                assert(made_at(before, time) == made_at(taken, time));
            }
        }
    }
    assert(all.take(all.len() as int) =~= all);
    sorted
}

/// Whether a live process is the one a pane recorded: one that took over the
/// number of a dead process started long after the pane was made. Without a
/// start time liveness decides.
pub fn pid_matches_start(alive: bool, start: Option<u64>, created_at: u64) -> (same: bool)
    ensures
        same == (alive && (start matches Some(s) ==> s <= created_at + START_SLACK_SECS)),
{
    if !alive {
        return false;
    }
    match start {
        Some(s) => s <= created_at || s - created_at <= START_SLACK_SECS,
        None => true,
    }
}

/// Whether sending signal 0 to `pid` showed a live process. Process groups and
/// "all processes" are never live.
pub fn pid_alive(pid: i32, probe: i32) -> (alive: bool)
    ensures
        alive == (pid > 0 && probe == 0),
{
    pid > 0 && probe == 0
}

} // verus!
