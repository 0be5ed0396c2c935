//! Which panes a command acts on, and what a listing says of them.
use crate::cli::{
    activity_text, gc_action, id_width_of, in_session, is_listing_order, lemma_lex_antisymmetric,
    lex_order, linger_reap_due, listed_before, row_text, sanitized, shown_foreground, socket_of,
    state_text, tag_of, GcAction, PaneFacts, SortKey,
};
use crate::pane::{
    directory_fault, matching_ids, pane_file, pid_alive, pid_matches_start, resolved_id,
    valid_pane_id, DirFault, PaneMeta,
};
use crate::text::{ends_with, left_aligned, starts_with};
use vstd::prelude::*;
use vstd::utf8::encode_utf8;

verus! {

/// Cleaning up removes the files of a pane only where its daemon is gone and
/// nothing answers, and not while it may still be starting; it ends a daemon only
/// where its shell has ended, and gives a client five minutes from then to come
/// back. Where that holds it does so.
pub proof fn law_cleaning_up_spares_the_living(
    m: &PaneMeta,
    daemon_alive: bool,
    reachable: bool,
    now: u64,
    action: GcAction,
)
    requires
        call_ensures(gc_action, (m, daemon_alive, reachable, now), action),
    ensures
        action is RemoveFiles <==> !daemon_alive && !reachable && now > m.created_at + 60,
        action is Reap ==> m.exited_status is Some && reachable,
        m.exited_status is None && (daemon_alive || reachable) ==> action is Keep,
        m.exited_status is Some && reachable ==> (action is Reap <==> match m.exited_at {
            Some(at) => now > at + 300,
            None => now > m.created_at + 300,
        }),
{
}

/// The grace of a pane whose shell has ended runs from the end, and from the
/// creation only where the end was not recorded.
pub proof fn law_the_grace_runs_from_the_end(m: &PaneMeta, now: u64, due: bool)
    requires
        call_ensures(linger_reap_due, (m, now), due),
    ensures
        m.exited_at matches Some(at) ==> (due <==> now > at + 300),
        m.exited_at is None ==> (due <==> now > m.created_at + 300),
{
}

/// Ending a session means the panes that are tagged with its name, character for
/// character; ending what is outside of sessions means those without a tag, or
/// with an empty one, and no others.
pub proof fn law_a_session_is_its_tagged_panes(m: &PaneMeta, name: &Option<String>, wanted: bool)
    requires
        call_ensures(in_session, (m, name), wanted),
    ensures
        name is Some && name->0@.len() > 0 ==> (wanted <==> (m.session is Some && m.session->0@
            == name->0@)),
        name is Some && name->0@.len() == 0 ==> !wanted,
        name is None ==> (wanted <==> (m.session matches Some(tag) ==> tag@.len() == 0)),
{
}

proof fn lemma_no_match(panes: Seq<PaneMeta>, prefix: Seq<char>)
    ensures
        matching_ids(panes, prefix).len() == 0 <==> forall|i: int|
            0 <= i < panes.len() ==> !starts_with((#[trigger] panes[i]).pane_id@, prefix),
    decreases panes.len(),
{
    if panes.len() > 0 {
        let init = panes.drop_last();
        lemma_no_match(init, prefix);
        assert(panes[panes.len() - 1] == panes.last());
        if forall|i: int| 0 <= i < panes.len() ==> !starts_with(
            (#[trigger] panes[i]).pane_id@,
            prefix,
        ) {
            assert forall|i: int| 0 <= i < init.len() implies !starts_with(
                (#[trigger] init[i]).pane_id@,
                prefix,
            ) by {
                assert(init[i] == panes[i]);
            }
        }
        if matching_ids(panes, prefix).len() == 0 {
            assert forall|i: int| 0 <= i < panes.len() implies !starts_with(
                (#[trigger] panes[i]).pane_id@,
                prefix,
            ) by {
                if i < init.len() {
                    assert(init[i] == panes[i]);
                }
            }
        }
    }
}

proof fn lemma_one_match(panes: Seq<PaneMeta>, prefix: Seq<char>, i: int)
    requires
        0 <= i < panes.len(),
        starts_with(panes[i].pane_id@, prefix),
    ensures
        (forall|j: int|
            0 <= j < panes.len() && j != i ==> !starts_with((#[trigger] panes[j]).pane_id@, prefix))
            ==> matching_ids(panes, prefix) == seq![panes[i].pane_id@],
        (exists|j: int|
            0 <= j < panes.len() && j != i && starts_with((#[trigger] panes[j]).pane_id@, prefix))
            ==> matching_ids(panes, prefix).len() > 1,
    decreases panes.len(),
{
    let init = panes.drop_last();
    let last = panes.len() - 1;
    lemma_no_match(init, prefix);
    assert(panes[last] == panes.last());
    if i < last {
        assert(init[i] == panes[i]);
        lemma_one_match(init, prefix, i);
        if forall|j: int|
            0 <= j < panes.len() && j != i ==> !starts_with((#[trigger] panes[j]).pane_id@, prefix) {
            assert forall|j: int| 0 <= j < init.len() && j != i implies !starts_with(
                (#[trigger] init[j]).pane_id@,
                prefix,
            ) by {
                assert(init[j] == panes[j]);
            }
        }
        if exists|j: int|
            0 <= j < panes.len() && j != i && starts_with((#[trigger] panes[j]).pane_id@, prefix) {
            let j = choose|j: int|
                0 <= j < panes.len() && j != i && starts_with(
                    (#[trigger] panes[j]).pane_id@,
                    prefix,
                );
            if j < last {
                assert(init[j] == panes[j]);
            }
        }
    } else {
        if forall|j: int|
            0 <= j < panes.len() && j != i ==> !starts_with((#[trigger] panes[j]).pane_id@, prefix) {
            assert forall|j: int| 0 <= j < init.len() implies !starts_with(
                (#[trigger] init[j]).pane_id@,
                prefix,
            ) by {
                assert(init[j] == panes[j]);
            }
            assert(matching_ids(panes, prefix) =~= seq![panes[i].pane_id@]);
        }
        if exists|j: int|
            0 <= j < panes.len() && j != i && starts_with((#[trigger] panes[j]).pane_id@, prefix) {
            let j = choose|j: int|
                0 <= j < panes.len() && j != i && starts_with(
                    (#[trigger] panes[j]).pane_id@,
                    prefix,
                );
            assert(init[j] == panes[j]);
            assert(matching_ids(init, prefix).len() > 0);
        }
    }
}

/// Whether every character is a digit or a letter from `a` to `f`.
pub open spec fn is_hex(text: Seq<char>) -> bool {
    forall|i: int|
        0 <= i < text.len() ==> '0' <= #[trigger] text[i] <= '9' || 'a' <= text[i] <= 'f'
}

/// The beginning of a pane's id means that pane where no other one begins so, and
/// none where another one does or where it is not hexadecimal. A full id means
/// itself.
pub proof fn law_a_prefix_means_one_pane(panes: Seq<PaneMeta>, prefix: Seq<char>, i: int)
    requires
        0 <= i < panes.len(),
        starts_with(panes[i].pane_id@, prefix),
        0 < prefix.len() < 32,
    ensures
        is_hex(prefix) && (forall|j: int|
            0 <= j < panes.len() && j != i ==> !starts_with((#[trigger] panes[j]).pane_id@, prefix))
            ==> resolved_id(prefix, panes) == Some(panes[i].pane_id@),
        (exists|j: int|
            0 <= j < panes.len() && j != i && starts_with((#[trigger] panes[j]).pane_id@, prefix))
            ==> resolved_id(prefix, panes) is None,
        !is_hex(prefix) ==> resolved_id(prefix, panes) is None,
{
    lemma_one_match(panes, prefix, i);
    if !is_hex(prefix) {
        let k = choose|k: int|
            0 <= k < prefix.len() && !('0' <= #[trigger] prefix[k] <= '9' || 'a' <= prefix[k]
                <= 'f');
        assert(!crate::pane::is_lower_hex(prefix[k]));
    } else {
        assert forall|k: int| 0 <= k < prefix.len() implies crate::pane::is_lower_hex(
            #[trigger] prefix[k],
        ) by {}
    }
}

/// A pane id has 32 characters, digits and letters from `a` to `f`, and means
/// itself; what has neither these nor is the beginning of one means no pane.
pub proof fn law_a_full_id_means_itself(id: Seq<char>, panes: Seq<PaneMeta>)
    ensures
        valid_pane_id(id) <==> id.len() == 32 && is_hex(id),
        id.len() == 32 && is_hex(id) ==> resolved_id(id, panes) == Some(id),
        id.len() > 32 || id.len() == 0 ==> resolved_id(id, panes) is None,
{
    if is_hex(id) {
        assert forall|k: int| 0 <= k < id.len() implies crate::pane::is_lower_hex(
            #[trigger] id[k],
        ) by {}
    }
    if valid_pane_id(id) {
        assert forall|k: int| 0 <= k < id.len() implies '0' <= #[trigger] id[k] <= '9' || 'a'
            <= id[k] <= 'f' by {
            assert(crate::pane::is_lower_hex(id[k]));
        }
    }
}

/// What is attached to is the socket of the pane that is meant, in the directory
/// of the sockets, else a socket file that is there and is named as one.
pub proof fn law_attaching_finds_the_socket(
    target: Seq<char>,
    base: Seq<u8>,
    panes: Seq<PaneMeta>,
    there: bool,
)
    ensures
        resolved_id(target, panes) matches Some(id) ==> socket_of(target, base, panes, there)
            == Some(pane_file(base, id, ".sock"@)),
        resolved_id(target, panes) is None ==> socket_of(target, base, panes, there) == if there
            && ends_with(target, ".sock"@) {
            Some(encode_utf8(target))
        } else {
            None
        },
{
}

/// The directory of the sockets is used only where it is one, belongs to the user
/// and lets in nobody else.
pub proof fn law_only_a_private_directory_is_used(
    is_dir: bool,
    owner: u32,
    user: u32,
    mode: u32,
    fault: Option<DirFault>,
)
    requires
        call_ensures(directory_fault, (is_dir, owner, user, mode), fault),
    ensures
        fault is None <==> is_dir && owner == user && mode & 0x3Fu32 == 0,
        fault == Some(DirFault::NotADirectory) <==> !is_dir,
        fault == Some(DirFault::Ownership) <==> is_dir && owner != user,
{
}

/// A process is the recorded one only where it is alive and did not start long
/// after the pane was made; where that cannot be told, being alive counts.
pub proof fn law_a_recycled_process_is_spared(
    alive: bool,
    start: Option<u64>,
    created_at: u64,
    same: bool,
)
    requires
        call_ensures(pid_matches_start, (alive, start, created_at), same),
    ensures
        !alive ==> !same,
        start matches Some(s) && s > created_at + 5 ==> !same,
        alive && start is None ==> same,
        alive && (start matches Some(s) && s <= created_at) ==> same,
{
}

/// Only single processes are alive: no groups of them, and not all of them.
pub proof fn law_process_groups_are_never_alive(pid: i32, probe: i32, alive: bool)
    requires
        call_ensures(pid_alive, (pid, probe), alive),
    ensures
        pid <= 0 ==> !alive,
        probe != 0 ==> !alive,
        pid > 0 && probe == 0 ==> alive,
{
}

// ---------------------------------------------------------------------------
// Listings.

/// A listing holds every pane once.
pub proof fn law_a_listing_holds_every_pane_once(
    key: SortKey,
    panes: Seq<PaneMeta>,
    order: Seq<usize>,
    k: int,
    l: int,
)
    requires
        is_listing_order(key, panes, order),
        0 <= k < l < order.len(),
    ensures
        order.len() == panes.len(),
        order[k] != order[l],
        order[k] < panes.len(),
{
    assert(listed_before(key, panes, order[k] as int, order[l] as int));
    lemma_lex_antisymmetric(panes[order[k] as int].pane_id@, panes[order[k] as int].pane_id@);
    if order[k] == order[l] {
        let m = panes[order[k] as int];
        if let Some(x) = tag_of(m) {
            lemma_lex_antisymmetric(x, x);
        }
    }
}

/// A listing by creation shows the older pane first, one by process the one with
/// the lower number, one by id in the order of the ids. One by session shows the
/// panes of one session by their creation, and those without one last.
pub proof fn law_a_listing_is_in_order(
    key: SortKey,
    panes: Seq<PaneMeta>,
    order: Seq<usize>,
    k: int,
    l: int,
)
    requires
        is_listing_order(key, panes, order),
        0 <= k < l < order.len(),
    ensures
        ({
            let a = panes[order[k] as int];
            let b = panes[order[l] as int];
            let a_tagged = a.session matches Some(t) && t@.len() > 0;
            let b_tagged = b.session matches Some(t) && t@.len() > 0;
            &&& key is Created ==> a.created_at <= b.created_at
            &&& key is Created && a.created_at == b.created_at ==> order[k] < order[l]
            &&& key is Pid ==> a.shell_pid <= b.shell_pid
            &&& key is Pid && a.shell_pid == b.shell_pid ==> a.created_at <= b.created_at
            &&& key is Id ==> lex_order(a.pane_id@, b.pane_id@) <= 0
            &&& key is Session && b_tagged ==> a_tagged
            &&& key is Session && a_tagged && b_tagged ==> lex_order(
                a.session->0@,
                b.session->0@,
            ) <= 0
            &&& key is Session && a_tagged && b_tagged && a.session->0@ == b.session->0@
                ==> a.created_at <= b.created_at
            &&& key is Session && !a_tagged && !b_tagged ==> a.created_at <= b.created_at
        }),
{
    let a = panes[order[k] as int];
    let b = panes[order[l] as int];
    assert(listed_before(key, panes, order[k] as int, order[l] as int));
    if let (Some(x), Some(y)) = (tag_of(a), tag_of(b)) {
        lemma_lex_antisymmetric(x, y);
    }
}

/// The order of texts is that of their first difference, a beginning before what
/// it is the beginning of.
pub proof fn law_texts_are_in_the_order_of_their_first_difference(
    front: Seq<char>,
    a: Seq<char>,
    b: Seq<char>,
    x: char,
    y: char,
)
    requires
        x < y,
    ensures
        lex_order(front.push(x) + a, front.push(y) + b) < 0,
        lex_order(front.push(y) + b, front.push(x) + a) > 0,
        lex_order(front, front.push(x) + a) < 0,
        lex_order(front, front) == 0,
    decreases front.len(),
{
    let p = front.push(x) + a;
    let q = front.push(y) + b;
    if front.len() == 0 {
        assert(p[0] == x);
        assert(q[0] == y);
    } else {
        let tail = front.skip(1);
        law_texts_are_in_the_order_of_their_first_difference(tail, a, b, x, y);
        assert(p.skip(1) =~= tail.push(x) + a);
        assert(q.skip(1) =~= tail.push(y) + b);
        assert(p[0] == front[0]);
        assert(q[0] == front[0]);
    }
}

/// A pane is shown as exited with its status, as running only where its daemon is
/// alive and its shell has not ended, else as dead; and what it runs is shown only
/// while it runs, else the directory it was started in.
pub proof fn law_a_listing_tells_the_state(m: PaneMeta, f: PaneFacts)
    ensures
        m.exited_status is None && f.alive ==> state_text(m, f) == "running"@,
        m.exited_status is None && !f.alive ==> state_text(m, f) == "dead"@,
        m.exited_status matches Some(code) ==> state_text(m, f) == "exited("@
            + crate::text::signed_text(code as int) + ")"@,
        m.exited_status is Some || !f.alive ==> shown_foreground(m, f) is None,
        m.exited_status is None && f.alive && (f.foreground matches Some(p)) ==> activity_text(m, f)
            == sanitized(f.foreground->0@),
        (m.exited_status is Some || !f.alive || f.foreground is None) && m.cwd is Some
            ==> activity_text(m, f) == sanitized(m.cwd->0@),
{
}

/// A row of a listing begins with the id of its pane, in full where that is asked
/// for, and ends with the time that it was made.
pub proof fn law_a_row_is_of_its_pane(m: PaneMeta, f: PaneFacts, panes: Seq<PaneMeta>, full: bool)
    requires
        m.pane_id@.len() == 32,
    ensures
        ({
            let width = id_width_of(panes, full);
            let row = row_text(m, f, width);
            &&& width == 8 || width == 32
            &&& full ==> width == 32
            &&& row.len() > width + f.created@.len()
            &&& row.take(width) == m.pane_id@.take(width)
            &&& row.skip(row.len() - f.created@.len()) == f.created@
        }),
{
    reveal_strlit("  ");
    let width = id_width_of(panes, full);
    let row = row_text(m, f, width);
    let id = crate::cli::first_chars(m.pane_id@, width);
    assert(id =~= m.pane_id@.take(width));
    let front = left_aligned(id, width);
    assert(front.take(width) =~= id);
    assert(row.take(width) =~= front.take(width));
    assert(row.skip(row.len() - f.created@.len()) =~= f.created@);
}

} // verus!
