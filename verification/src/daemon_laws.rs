//! What the frames of a client, the end of the shell and other connections lead
//! to.
use crate::daemon::{
    code_of_status, ends_with_shell, exit_noted, exit_settled, exit_words, fresh_conn, hello_scan,
    hello_served, interests_of, law_output_arrives, lemma_control_shows_nothing,
    lemma_queued_appends, output_frames, output_taken, pending_settled, place_of, replaced_words,
    served, served_all, server_hello, shell_gone, shown, shutdown_words, slow_words, sorted_pending,
    taken_in, to_be_dropped, ConnView, DaemonView, Effect, Fate, Served, Serving,
};
use crate::protocol::{
    bits_of, chunked, frame_bytes, law_client_hello_round_trip, law_frame_round_trip,
    law_resize_round_trip, le16, le32, type_byte, FrameType,
};
use crate::ring::{align_count, evicted, pushed, replay_of, RingView};
use vstd::prelude::*;

verus! {

// ---------------------------------------------------------------------------
// The wire.

/// A frame is eight bytes and its payload: the length of the payload, lowest byte
/// first, the number of its type, and three zeros.
pub proof fn law_the_layout_of_a_frame(typ: FrameType, payload: Seq<u8>)
    requires
        payload.len() <= 65536,
    ensures
        ({
            let bytes = frame_bytes(typ, payload);
            &&& bytes.len() == 8 + payload.len()
            &&& bytes[0] + bytes[1] * 256 + bytes[2] * 65536 + bytes[3] * 16777216 == payload.len()
            &&& bytes[5] == 0 && bytes[6] == 0 && bytes[7] == 0
            &&& bytes.skip(8) == payload
            &&& bytes[4] == match typ {
                FrameType::ClientHello => 1u8,
                FrameType::Stdin => 2,
                FrameType::Resize => 3,
                FrameType::Kill => 4,
                FrameType::Detach => 5,
                FrameType::Ping => 6,
                FrameType::ServerHello => 129,
                FrameType::Output => 130,
                FrameType::ReplayBegin => 131,
                FrameType::ReplayEnd => 132,
                FrameType::Exited => 133,
                FrameType::Detached => 134,
                FrameType::Error => 135,
                FrameType::Pong => 136,
            }
        }),
{
    let bytes = frame_bytes(typ, payload);
    let n = payload.len() as u32;
    assert(bytes.skip(8) =~= payload);
    assert(n % 256 + n / 256 % 256 * 256 + n / 65536 % 256 * 65536 + n / 16777216 * 16777216 == n)
        by (bit_vector);
}

// ---------------------------------------------------------------------------
// Frames of a client.

/// What a single frame of a client leads to.
pub open spec fn after_frame(s: Served, ctx: Serving, typ: FrameType, payload: Seq<u8>) -> Served {
    served_all(s, ctx, frame_bytes(typ, payload)).0
}

proof fn lemma_one_frame(s: Served, ctx: Serving, typ: FrameType, payload: Seq<u8>)
    requires
        payload.len() <= 65536,
        s.fate == Fate::Keep,
    ensures
        after_frame(s, ctx, typ, payload) == served(s, ctx, type_byte(typ), payload),
{
    law_frame_round_trip(typ, payload, Seq::empty());
    assert(frame_bytes(typ, payload) + Seq::<u8>::empty() =~= frame_bytes(typ, payload));
    let next = served(s, ctx, type_byte(typ), payload);
    assert(served_all(next, ctx, Seq::empty()).0 == next);
}

/// A client that resizes its window has the pty take that size, as it was sent
/// where applications can take it, and a running shell told to repaint. Nothing
/// else comes of it.
pub proof fn law_a_resize_reaches_the_pty(
    s: Served,
    ctx: Serving,
    rows: u16,
    cols: u16,
    xpixel: u16,
    ypixel: u16,
)
    requires
        s.fate == Fate::Keep,
        1 <= rows <= 10000,
        1 <= cols <= 10000,
    ensures
        ({
            let payload = le16(rows) + le16(cols) + le16(xpixel) + le16(ypixel);
            let after = after_frame(s, ctx, FrameType::Resize, payload);
            let size = Effect::SetSize { rows, cols, xpixel, ypixel };
            &&& after == (Served { effects: after.effects, ..s })
            &&& ctx.gone ==> after.effects == s.effects + seq![size]
            &&& !ctx.gone ==> after.effects == s.effects + seq![size, Effect::Repaint]
        }),
{
    let payload = le16(rows) + le16(cols) + le16(xpixel) + le16(ypixel);
    law_resize_round_trip(rows, cols, xpixel, ypixel);
    lemma_one_frame(s, ctx, FrameType::Resize, payload);
    let size = Effect::SetSize { rows, cols, xpixel, ypixel };
    assert(s.effects.push(size) =~= s.effects + seq![size]);
    assert(s.effects.push(size).push(Effect::Repaint) =~= s.effects + seq![size, Effect::Repaint]);
}

/// A size that no application can take is brought into range.
pub proof fn law_a_size_out_of_range_is_brought_into_it(
    s: Served,
    ctx: Serving,
    rows: u16,
    cols: u16,
)
    requires
        s.fate == Fate::Keep,
    ensures
        ({
            let payload = le16(rows) + le16(cols) + le16(0) + le16(0);
            let after = after_frame(s, ctx, FrameType::Resize, payload);
            let made = after.effects[s.effects.len() as int];
            &&& made matches Effect::SetSize { rows: r, cols: c, .. }
            &&& 1 <= r <= 10000 && 1 <= c <= 10000
            &&& rows == 0 ==> r == 1
            &&& cols == 0 ==> c == 1
            &&& rows > 10000 ==> r == 10000
            &&& cols > 10000 ==> c == 10000
        }),
{
    let payload = le16(rows) + le16(cols) + le16(0) + le16(0);
    law_resize_round_trip(rows, cols, 0, 0);
    lemma_one_frame(s, ctx, FrameType::Resize, payload);
}

/// A kill has a running shell told to go, and is remembered so that the daemon
/// ends with it; with the shell gone the daemon ends at once.
pub proof fn law_a_kill_ends_the_pane(s: Served, ctx: Serving)
    requires
        s.fate == Fate::Keep,
    ensures
        ({
            let after = after_frame(s, ctx, FrameType::Kill, Seq::empty());
            &&& after.kill
            &&& ctx.gone ==> after.fate == Fate::Exit && after.effects == s.effects
            &&& !ctx.gone ==> after.fate == Fate::Keep && after.effects == s.effects + seq![
                Effect::Hangup,
            ]
            &&& after.inbuf == s.inbuf && after.out == s.out
        }),
{
    lemma_one_frame(s, ctx, FrameType::Kill, Seq::empty());
    assert(s.effects.push(Effect::Hangup) =~= s.effects + seq![Effect::Hangup]);
}

/// A client that detaches is let go and leaves the shell alone.
pub proof fn law_a_detach_leaves_the_shell_alone(s: Served, ctx: Serving)
    requires
        s.fate == Fate::Keep,
    ensures
        after_frame(s, ctx, FrameType::Detach, Seq::empty()) == (Served { fate: Fate::Drop, ..s }),
{
    lemma_one_frame(s, ctx, FrameType::Detach, Seq::empty());
}

/// A ping is answered by a pong, and by nothing else.
pub proof fn law_a_ping_is_answered(s: Served, ctx: Serving)
    requires
        s.fate == Fate::Keep,
    ensures
        after_frame(s, ctx, FrameType::Ping, Seq::empty()) == (Served {
            out: s.out + frame_bytes(FrameType::Pong, Seq::empty()),
            ..s
        }),
{
    lemma_one_frame(s, ctx, FrameType::Ping, Seq::empty());
}

/// What is typed once the shell has ended goes nowhere.
pub proof fn law_nothing_is_typed_at_a_dead_shell(s: Served, ctx: Serving, bytes: Seq<u8>)
    requires
        s.fate == Fate::Keep,
        ctx.exited,
        bytes.len() <= 65536,
    ensures
        after_frame(s, ctx, FrameType::Stdin, bytes) == s,
{
    lemma_one_frame(s, ctx, FrameType::Stdin, bytes);
}

/// A hello of this version is taken with its features, one of another version is
/// refused: the client is told and let go. A second hello does nothing.
pub proof fn law_a_hello_must_be_of_this_version(
    s: Served,
    ctx: Serving,
    version: u32,
    features: u32,
)
    requires
        s.fate == Fate::Keep,
    ensures
        ({
            let after = after_frame(s, ctx, FrameType::ClientHello, le32(version) + le32(features));
            &&& ctx.hello_done ==> after == s
            &&& !ctx.hello_done && version == 1 ==> after == (Served {
                features,
                got_hello: true,
                ..s
            })
            &&& !ctx.hello_done && version != 1 ==> after.refused && after.fate == Fate::Drop
                && after.got_hello == s.got_hello && after.effects == s.effects && after.inbuf
                == s.inbuf
        }),
{
    let payload = le32(version) + le32(features);
    crate::protocol::lemma_le32(Seq::empty(), version, le32(features));
    assert(payload =~= Seq::<u8>::empty() + le32(version) + le32(features));
    crate::protocol::lemma_le32(le32(version), features, Seq::empty());
    assert(payload =~= le32(version) + le32(features) + Seq::<u8>::empty());
    lemma_one_frame(s, ctx, FrameType::ClientHello, payload);
}

/// Two frames of a client do what they do one after the other.
pub proof fn law_frames_are_served_in_turn(
    s: Served,
    ctx: Serving,
    typ: FrameType,
    payload: Seq<u8>,
    rest: Seq<u8>,
)
    requires
        payload.len() <= 65536,
        s.fate == Fate::Keep,
    ensures
        served_all(s, ctx, frame_bytes(typ, payload) + rest) == served_all(
            after_frame(s, ctx, typ, payload),
            ctx,
            rest,
        ),
{
    lemma_one_frame(s, ctx, typ, payload);
    law_frame_round_trip(typ, payload, rest);
}

/// A client is let go where it closed, asked for it or broke the protocol, where
/// it floods or does not read, or hung up while the pty takes nothing; one that
/// does none of these stays.
pub proof fn law_a_quiet_client_stays(s: Served, rest: Seq<u8>, closed: bool, hangup: bool)
    ensures
        closed || s.fate == Fate::Drop ==> to_be_dropped(s, rest, closed, hangup),
        !closed && s.fate != Fate::Drop && rest.len() <= 262176 && s.out.len()
            <= 8388608 && !hangup ==> !to_be_dropped(s, rest, closed, hangup),
        rest.len() > 262176 || s.out.len() > 8388608 ==> to_be_dropped(
            s,
            rest,
            closed,
            hangup,
        ),
        hangup ==> (to_be_dropped(s, rest, closed, hangup) <== s.inbuf.len() > 1048576),
{
}

// ---------------------------------------------------------------------------
// Attaching.

proof fn lemma_in_turn(a: Seq<u8>, b: Seq<u8>, c: Seq<u8>, d: Seq<u8>, e: Seq<u8>)
    ensures
        a + b + c + d + e == a + (b + (c + (d + (e + Seq::<u8>::empty())))),
{
    assert(a + b + c + d + e =~= a + (b + (c + (d + (e + Seq::<u8>::empty())))));
}

/// A client that did not ask to go without is replayed what the ring holds; one
/// that did is shown nothing of it.
#[verifier::rlimit(40)]
pub proof fn law_a_client_is_replayed_unless_it_asked(
    d: DaemonView,
    c: ConnView,
    live_cwd: Option<Seq<char>>,
)
    requires
        d.client == Some(c),
        c.out.len() == 0,
    ensures
        ({
            let after = hello_served(d, live_cwd);
            &&& after.client is Some
            &&& after.ring == d.ring && after.inbuf == d.inbuf && after.pending == d.pending
            &&& after.client->0.id == c.id
            &&& c.features & 1 == 0 ==> shown(after.client->0.out) == replay_of(d.ring)
            &&& c.features & 1 != 0 ==> shown(after.client->0.out) == Seq::<u8>::empty()
        }),
{
    let replay = crate::daemon::replay_for(d, c.features);
    let none = Seq::<u8>::empty();
    let hello_payload = crate::protocol::server_hello_bytes(server_hello(d, live_cwd));
    let f1 = crate::daemon::queued(none, FrameType::ServerHello, hello_payload);
    let f2 = crate::daemon::queued(
        none,
        FrameType::ReplayBegin,
        crate::daemon::le64(replay.len()),
    );
    let f3 = output_frames(replay);
    let f4 = crate::daemon::queued(none, FrameType::ReplayEnd, none);
    let code = le32(bits_of(crate::daemon::exit_code(d)));
    let f5 = if shell_gone(d) {
        crate::daemon::queued(none, FrameType::Exited, code)
    } else {
        none
    };
    let out = hello_served(d, live_cwd).client->0.out;
    assert(c.out =~= none);
    lemma_queued_appends(f1, FrameType::ReplayBegin, crate::daemon::le64(replay.len()));
    lemma_queued_appends(f1 + f2 + f3, FrameType::ReplayEnd, none);
    lemma_queued_appends(f1 + f2 + f3 + f4, FrameType::Exited, code);
    assert(out == f1 + f2 + f3 + f4 + f5) by {
        if !shell_gone(d) {
            assert(f1 + f2 + f3 + f4 + f5 =~= f1 + f2 + f3 + f4);
        }
    }
    lemma_in_turn(f1, f2, f3, f4, f5);
    lemma_control_shows_nothing(FrameType::ServerHello, hello_payload, f2 + (f3 + (f4 + (f5 + none))));
    lemma_control_shows_nothing(
        FrameType::ReplayBegin,
        crate::daemon::le64(replay.len()),
        f3 + (f4 + (f5 + none)),
    );
    law_output_arrives(replay, f4 + (f5 + none));
    lemma_control_shows_nothing(FrameType::ReplayEnd, none, f5 + none);
    assert(shown(none) =~= none);
    if shell_gone(d) {
        lemma_control_shows_nothing(FrameType::Exited, code, none);
    } else {
        assert(f5 + none =~= none);
    }
    assert(replay + none =~= replay);
}

/// The answer to a hello tells of the pane: its processes, whether its shell runs
/// and how it ended.
pub proof fn law_a_hello_is_answered_truly(d: DaemonView, live_cwd: Option<Seq<char>>)
    requires
        d.meta.daemon_pid >= 0,
        d.meta.shell_pid >= 0,
    ensures
        ({
            let h = server_hello(d, live_cwd);
            &&& h.version == 1
            &&& h.daemon_pid == d.meta.daemon_pid
            &&& h.shell_pid == d.meta.shell_pid
            &&& d.shell_exit is None && d.meta.exited_status is None ==> h.shell_state == 0
            &&& d.shell_exit is Some || d.meta.exited_status is Some ==> h.shell_state == 1
            &&& d.shell_exit matches Some(code) ==> h.exit_status == code
            &&& d.shell_exit is None && d.meta.exited_status is Some ==> h.exit_status
                == d.meta.exited_status->0
        }),
{
}

// ---------------------------------------------------------------------------
// Output and the end of the shell.

/// Output goes into the ring whoever is there, and to a client that was answered;
/// one that was not is shown it by the replay instead. A client is let go only
/// where it does not keep up, and told so.
pub proof fn law_output_is_kept_and_sent(d: DaemonView, data: Seq<u8>)
    ensures
        ({
            let after = output_taken(d, data);
            &&& after.ring == pushed(d.ring, data)
            &&& after == (DaemonView { ring: after.ring, client: after.client, ..d })
            &&& d.client is None ==> after.client is None && slow_words(d, data).len() == 0
            &&& d.client is Some && !d.client->0.hello_done ==> after.client == d.client
            &&& d.client is Some && d.client->0.hello_done ==> {
                let sent = d.client->0.out + chunked(FrameType::Output, data);
                if sent.len() <= 8388608 {
                    &&& after.client is Some
                    &&& after.client->0 == (ConnView { out: sent, ..d.client->0 })
                    &&& slow_words(d, data).len() == 0
                } else {
                    &&& after.client is None
                    &&& slow_words(d, data) == sent + frame_bytes(
                        FrameType::Detached,
                        seq![2u8],
                    )
                }
            }
        }),
{
}

/// A ring that is cut where no sequence is open keeps as much as it can hold.
pub proof fn law_a_clean_cut_loses_nothing_more(r: RingView, data: Seq<u8>)
    requires
        r.contents.len() + data.len() >= r.capacity,
        crate::modes::run(
            r.baseline,
            (r.contents + data).take(r.contents.len() + data.len() - r.capacity),
        ).position is Ground,
    ensures
        pushed(r, data).contents == (r.contents + data).skip(
            r.contents.len() + data.len() - r.capacity,
        ),
{
    let all = RingView { contents: r.contents + data, ..r };
    let n = r.contents.len() + data.len() - r.capacity;
    let kept = if all.contents.len() > r.capacity {
        evicted(all, n)
    } else {
        all
    };
    assert(all.contents.take(0) =~= Seq::<u8>::empty());
    assert(kept.baseline.position is Ground);
    assert(align_count(kept.baseline, kept.contents, r.capacity / 4) == 0);
    assert(evicted(kept, 0).contents =~= kept.contents);
    assert(all.contents.skip(0) =~= all.contents);
}

/// Only the end of the shell is the shell's end, with the code it ended with.
pub proof fn law_only_the_shell_ends_the_pane(d: DaemonView, pid: i32, status: i32)
    ensures
        pid != d.meta.shell_pid ==> exit_noted(d, pid, status) == d,
        pid == d.meta.shell_pid ==> exit_noted(d, pid, status) == (DaemonView {
            shell_exit: Some(code_of_status(status)),
            ..d
        }),
{
}

/// The code of a shell that ended by itself is its own, of one that a signal ended
/// 128 and the number of the signal.
pub proof fn law_the_code_of_a_shell(code: i32, signal: i32)
    requires
        0 <= code <= 255,
        1 <= signal <= 126,
    ensures
        code_of_status(mul256(code)) == code,
        code_of_status(signal) == 128 + signal,
{
    assert(mul256(code) & 0x7F == 0 && (mul256(code) >> 8) & 0xFF == code) by (bit_vector)
        requires
            0 <= code <= 255,
    ;
    assert(signal & 0x7F == signal) by (bit_vector)
        requires
            1 <= signal <= 126,
    ;
}

/// The status of a process that ended with a code.
pub open spec fn mul256(code: i32) -> i32 {
    code << 8
}

/// A shell that ends while a client is attached has the client told how, and the
/// daemon ends with it; so it does where its end was asked for. Else the daemon
/// lingers, and records how and when.
pub proof fn law_the_end_of_a_shell(d: DaemonView, code: i32, now: u64)
    requires
        d.shell_exit == Some(code),
    ensures
        ends_with_shell(d) <==> d.client is Some || d.kill_requested,
        d.client matches Some(c) ==> exit_words(d) == c.out + frame_bytes(
            FrameType::Exited,
            le32(bits_of(code)),
        ),
        d.client is None ==> exit_words(d).len() == 0,
        ({
            let after = exit_settled(d, now);
            &&& after.ring == d.ring && after.pending == d.pending && after.shell_exit
                == d.shell_exit
            &&& after.inbuf.len() == 0
            &&& d.client is None && !d.kill_requested ==> after.meta.exited_status == Some(code)
                && after.meta.exited_at == Some(now)
            &&& after.meta.created_at == d.meta.created_at && after.meta.pane_id == d.meta.pane_id
                && after.meta.session == d.meta.session
        }),
{
}

/// A daemon that is told to end says so to its client.
pub proof fn law_a_daemon_says_goodbye(d: DaemonView)
    ensures
        d.client matches Some(c) ==> shutdown_words(d) == c.out + frame_bytes(
            FrameType::Detached,
            seq![0u8],
        ),
        d.client is None ==> shutdown_words(d).len() == 0,
{
}

// ---------------------------------------------------------------------------
// Other connections.

/// The first connection is the client; further ones wait, eight at most, and
/// leave the client alone.
pub proof fn law_a_new_connection_disturbs_nobody(d: DaemonView, id: u64, now: u64)
    ensures
        d.client is None ==> place_of(d) is Client && taken_in(d, id, now) == (DaemonView {
            client: Some(fresh_conn(id, now)),
            ..d
        }),
        d.client is Some && d.pending.len() < 8 ==> place_of(d) is Pending && taken_in(d, id, now)
            == (DaemonView { pending: d.pending.push(fresh_conn(id, now)), ..d }),
        d.client is Some && d.pending.len() >= 8 ==> place_of(d) is Refused && taken_in(d, id, now)
            == d,
        fresh_conn(id, now).id == id && !fresh_conn(id, now).hello_done && fresh_conn(
            id,
            now,
        ).accepted_at == now,
{
}

/// A waiting connection that says hello in time becomes the client, and is
/// answered; the former one is told that it was replaced.
pub proof fn law_a_hello_takes_the_place_of_the_client(
    d: DaemonView,
    c: ConnView,
    features: u32,
    now: u64,
    closed: bool,
    live_cwd: Option<Seq<char>>,
)
    requires
        d.pending == seq![c],
        now - c.accepted_at < 10_000,
        c.inbox == frame_bytes(FrameType::ClientHello, le32(1) + le32(features)),
    ensures
        ({
            let sorting = sorted_pending(d.pending, seq![true], seq![closed], now);
            let after = pending_settled(d, sorting, live_cwd);
            &&& sorting.promoted is Some
            &&& after.pending.len() == 0
            &&& after.client is Some
            &&& after.client->0.id == c.id
            &&& after.client->0.features == features
            &&& d.client matches Some(former) ==> replaced_words(former) == former.out
                + frame_bytes(FrameType::Detached, seq![1u8])
        }),
{
    let payload = le32(1) + le32(features);
    law_client_hello_round_trip(features);
    law_frame_round_trip(FrameType::ClientHello, payload, Seq::empty());
    assert(c.inbox + Seq::<u8>::empty() =~= c.inbox);
    reveal_with_fuel(sorted_pending, 2);
    assert(d.pending.drop_last() =~= Seq::<ConnView>::empty());
    assert(hello_scan(c.inbox).features == Some(features));
    assert(hello_scan(c.inbox).rest =~= Seq::<u8>::empty());
}

/// A waiting connection that says nothing for ten seconds is closed; one that has
/// time left and says nothing waits on.
pub proof fn law_a_silent_connection_is_closed(d: DaemonView, c: ConnView, now: u64, closed: bool)
    requires
        d.pending == seq![c],
    ensures
        ({
            let sorting = sorted_pending(d.pending, seq![false], seq![closed], now);
            &&& sorting.promoted is None
            &&& now >= c.accepted_at + 10_000 ==> sorting.kept.len() == 0 && sorting.dropped
                == seq![c.id]
            &&& now < c.accepted_at + 10_000 ==> sorting.kept == seq![c] && sorting.dropped.len()
                == 0
        }),
{
    reveal_with_fuel(sorted_pending, 2);
    assert(d.pending.drop_last() =~= Seq::<ConnView>::empty());
    let sorting = sorted_pending(d.pending, seq![false], seq![closed], now);
    assert(Seq::<u64>::empty().push(c.id) =~= seq![c.id]);
    assert(Seq::<ConnView>::empty().push(c) =~= seq![c]);
}

/// The client is read as long as the pty keeps up, and the pty as long as the
/// shell runs; what waits is written.
pub proof fn law_nothing_is_starved(d: DaemonView)
    ensures
        d.shell_exit is None ==> interests_of(d).pty_read,
        interests_of(d).pty_write <==> d.shell_exit is None && d.inbuf.len() > 0,
        d.client is Some && d.inbuf.len() <= 1048576 ==> interests_of(d).client_read,
        d.client is Some && d.inbuf.len() > 1048576 ==> !interests_of(d).client_read,
        d.client is Some && d.client->0.out.len() > 0 ==> interests_of(d).client_write,
        d.pending.len() > 0 ==> 0 < interests_of(d).timeout_ms <= 1000,
{
}

} // verus!
