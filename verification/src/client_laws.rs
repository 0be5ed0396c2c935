//! What the two sides of a pane's socket make of each other.
use crate::attach::{
    after_resizing, after_typing, detaches, final_code, incoming, opening_bytes, relay_done,
    EndingView, Ending, InteractiveView,
};
use crate::cli::{command_of, no_spawn_options, spawn_options, CommandView};
use crate::daemon::{served_all, Effect, Fate, Served, Serving};
use crate::daemon_laws::{
    after_frame, law_a_hello_must_be_of_this_version, law_a_resize_reaches_the_pty,
    law_frames_are_served_in_turn,
};
use crate::launch::SpawnView;
use crate::protocol::{
    bits_of, frame_bytes, law_frame_round_trip, law_server_hello_round_trip, le16, le32, le32_at,
    server_hello_bytes, FrameType, ServerHelloView,
};
use crate::remote::{
    after_bytes, attach_bytes, ended, greeting, over, picker_label, picks, spawn_args,
    ssh_attach_args, ssh_list_args, AttachErrorView, GreetingView, Place, ReaderView,
    RemoteEntryView, Taken,
};
use crate::text::{digits_value, is_digit, number_text, parsed_number};
use vstd::prelude::*;

verus! {

// ---------------------------------------------------------------------------
// Launching.

proof fn lemma_number(n: nat)
    ensures
        number_text(n).len() > 0,
        forall|i: int| 0 <= i < number_text(n).len() ==> is_digit(#[trigger] number_text(n)[i]),
        digits_value(number_text(n)) == n,
    decreases n,
{
    if n < 10 {
        assert(seq![crate::text::digit_char(n)].drop_last() =~= Seq::<char>::empty());
        assert(digits_value(Seq::<char>::empty()) == 0);
        assert(number_text(n) =~= seq![crate::text::digit_char(n)]);
        assert(crate::text::digit_char(n) as nat == '0' as nat + n);
    } else {
        lemma_number(n / 10);
        let last = crate::text::digit_char(n % 10);
        assert(number_text(n).drop_last() =~= number_text(n / 10));
        assert(last as nat == '0' as nat + n % 10);
        assert forall|i: int| 0 <= i < number_text(n).len() implies is_digit(
            #[trigger] number_text(n)[i],
        ) by {
            if i < number_text(n / 10).len() {
                assert(number_text(n)[i] == number_text(n / 10)[i]);
            }
        }
    }
}

/// A number that is written is read back.
pub proof fn law_a_number_is_read_back(n: nat, max: nat)
    requires
        n <= max,
    ensures
        parsed_number(number_text(n), max) == Some(n),
{
    lemma_number(n);
    assert(is_digit(number_text(n)[0]));
}

/// A daemon that is launched understands what it is asked for: the size of its
/// replay, the session, the program and its arguments, and the directory, which is
/// the terminal's own where the pane has none.
pub proof fn law_a_launch_is_understood(
    ring_bytes: nat,
    session: Option<Seq<char>>,
    cwd: Option<Seq<char>>,
    current: Option<Seq<char>>,
    program: Seq<char>,
    args: Seq<Seq<char>>,
    shell: Option<Seq<char>>,
)
    requires
        ring_bytes <= usize::MAX,
        program.len() > 0,
    ensures
        command_of(spawn_args(ring_bytes, session, cwd, current, program, args), shell)
            matches CommandView::Spawn(v) && {
            &&& v.ring_size == ring_bytes
            &&& v.session == session
            &&& cwd is Some ==> v.cwd == cwd
            &&& cwd is None ==> v.cwd == current
            &&& v.program == program
            &&& v.args == args
            &&& v.pane_id is None
            &&& v.env.len() == 0
        },
{
    let none = no_spawn_options();
    let dir = if cwd is Some {
        cwd
    } else {
        current
    };
    let words = spawn_args(ring_bytes, session, cwd, current, program, args);
    let size = number_text(ring_bytes);
    let named = named_args(session, dir, program, args);
    assert(words.skip(1) =~= seq!["--ring-size"@, size] + named);
    assert(words[0] == "spawn"@);
    law_a_number_is_read_back(ring_bytes, usize::MAX as nat);
    lemma_named(SpawnView { ring_size: ring_bytes, ..none }, session, dir, program, args);
    assert(spawn_options(none, words.skip(1)) == spawn_options(
        SpawnView { ring_size: ring_bytes, ..none },
        named,
    )) by {
        crate::cli_laws::lemma_option(none, size, named);
    }
}

spec fn placed_args(dir: Option<Seq<char>>, program: Seq<char>, args: Seq<Seq<char>>) -> Seq<
    Seq<char>,
> {
    crate::remote::option_args("--cwd"@, dir) + (seq!["--"@, program] + args)
}

spec fn named_args(
    session: Option<Seq<char>>,
    dir: Option<Seq<char>>,
    program: Seq<char>,
    args: Seq<Seq<char>>,
) -> Seq<Seq<char>> {
    crate::remote::option_args("--session"@, session) + placed_args(dir, program, args)
}

proof fn lemma_placed(
    v: SpawnView,
    dir: Option<Seq<char>>,
    program: Seq<char>,
    args: Seq<Seq<char>>,
)
    requires
        v.cwd is None,
    ensures
        spawn_options(v, placed_args(dir, program, args)) == Some(
            SpawnView { cwd: dir, program, args, ..v },
        ),
{
    let end = seq!["--"@, program] + args;
    match dir {
        Some(d) => {
            crate::cli_laws::lemma_option(v, d, end);
            crate::cli_laws::lemma_program(SpawnView { cwd: Some(d), ..v }, program, args);
        },
        None => {
            assert(placed_args(dir, program, args) =~= end);
            crate::cli_laws::lemma_program(v, program, args);
        },
    }
}

proof fn lemma_named(
    v: SpawnView,
    session: Option<Seq<char>>,
    dir: Option<Seq<char>>,
    program: Seq<char>,
    args: Seq<Seq<char>>,
)
    requires
        v.cwd is None,
        v.session is None,
    ensures
        spawn_options(v, named_args(session, dir, program, args)) == Some(
            SpawnView { session, cwd: dir, program, args, ..v },
        ),
{
    let rest = placed_args(dir, program, args);
    match session {
        Some(name) => {
            crate::cli_laws::lemma_option(v, name, rest);
            lemma_placed(SpawnView { session: Some(name), ..v }, dir, program, args);
        },
        None => {
            assert(named_args(session, dir, program, args) =~= rest);
            lemma_placed(v, dir, program, args);
        },
    }
}

proof fn lemma_plain(word: Seq<char>)
    requires
        word.len() == 32,
        crate::pane_laws::is_hex(word),
    ensures
        !crate::text::starts_with(word, "--"@),
{
    reveal_strlit("--");
    if crate::text::starts_with(word, "--"@) {
        assert(word.take(2)[0] == '-');
        assert(word[0] == '-');
    }
}

/// What ssh runs at the other end bridges to the pane that is named, and lists the
/// panes as JSON; ssh itself is handed the destination and never asks for
/// anything.
pub proof fn law_ssh_runs_what_it_should(dest: Seq<char>, id: Seq<char>, shell: Option<Seq<char>>)
    requires
        id.len() == 32,
        crate::pane_laws::is_hex(id),
    ensures
        ssh_attach_args(dest, id)[1] == dest,
        ssh_attach_args(dest, id)[0] == "-oBatchMode=yes"@,
        command_of(ssh_attach_args(dest, id).skip(3), shell) == (CommandView::Attach {
            stdio: true,
            no_replay: false,
            target: id,
        }),
        ssh_list_args(dest)[2] == dest,
        ssh_list_args(dest)[0] == "-oBatchMode=yes"@,
        command_of(ssh_list_args(dest).skip(4), shell) matches CommandView::List {
            json,
            full,
            ..
        } && json && !full,
{
    reveal_strlit("--stdio");
    reveal_strlit("--no-replay");
    reveal_strlit("--");
    let words = ssh_attach_args(dest, id).skip(3);
    crate::cli_laws::law_attach_goes_to_the_first_plain_word(words, shell);
    lemma_plain(id);
    assert(words[0] == "attach"@);
    assert(words[1] == "--stdio"@);
    assert(words[2] == id);
    assert(words.len() == 3);
    assert("--stdio"@.take(2) =~= "--"@);
    assert(crate::text::starts_with(words[1], "--"@));
    assert("--stdio"@.len() == 7);
    assert("--no-replay"@.len() == 11);
    let list = ssh_list_args(dest).skip(4);
    assert(list[0] == "list"@);
    assert(list[1] == "--json"@);
    assert(list.len() == 2);
    crate::cli_laws::lemma_first_words();
    crate::cli_laws::lemma_list_words();
    let rest = list.skip(1);
    assert(rest[0] == "--json"@);
    assert(rest.skip(1) =~= Seq::<Seq<char>>::empty());
    reveal_with_fuel(crate::cli::list_command, 2);
}

// ---------------------------------------------------------------------------
// Greeting.

/// The first frames of a client greet the daemon: it takes the hello with its
/// features, and the pty takes the size of the client's terminal.
pub proof fn law_an_opening_greets(s: Served, ctx: Serving, features: u32, rows: u16, cols: u16)
    requires
        s.fate == Fate::Keep,
        !ctx.hello_done,
        !ctx.gone,
        1 <= rows <= 10000,
        1 <= cols <= 10000,
    ensures
        ({
            let after = served_all(s, ctx, opening_bytes(features, Some((rows, cols)))).0;
            &&& after.got_hello
            &&& after.features == features
            &&& after.fate == Fate::Keep
            &&& after.inbuf == s.inbuf
            &&& after.effects == s.effects + seq![
                Effect::SetSize { rows, cols, xpixel: 0, ypixel: 0 },
                Effect::Repaint,
            ]
        }),
        served_all(s, ctx, opening_bytes(features, None)).0 == (Served {
            got_hello: true,
            features,
            ..s
        }),
{
    let payload = le32(1) + le32(features);
    let size = le16(rows) + le16(cols) + le16(0) + le16(0);
    let resize = frame_bytes(FrameType::Resize, size);
    law_a_hello_must_be_of_this_version(s, ctx, 1, features);
    law_frames_are_served_in_turn(s, ctx, FrameType::ClientHello, payload, resize);
    let mid = after_frame(s, ctx, FrameType::ClientHello, payload);
    law_a_resize_reaches_the_pty(mid, ctx, rows, cols, 0, 0);
}

/// A terminal that attaches to a pane greets it the same way, with the size of its
/// cells, and asks for the replay.
pub proof fn law_attaching_greets(
    s: Served,
    ctx: Serving,
    rows: u16,
    cols: u16,
    width: u16,
    height: u16,
)
    requires
        s.fate == Fate::Keep,
        !ctx.hello_done,
        !ctx.gone,
        1 <= rows <= 10000,
        1 <= cols <= 10000,
    ensures
        ({
            let after = served_all(s, ctx, attach_bytes(rows, cols, width, height)).0;
            &&& after.got_hello
            &&& after.features == 0
            &&& after.fate == Fate::Keep
            &&& after.effects == s.effects + seq![
                Effect::SetSize { rows, cols, xpixel: width, ypixel: height },
                Effect::Repaint,
            ]
        }),
{
    let payload = le32(1) + le32(0);
    let size = le16(rows) + le16(cols) + le16(width) + le16(height);
    let resize = frame_bytes(FrameType::Resize, size);
    law_a_hello_must_be_of_this_version(s, ctx, 1, 0);
    law_frames_are_served_in_turn(s, ctx, FrameType::ClientHello, payload, resize);
    let mid = after_frame(s, ctx, FrameType::ClientHello, payload);
    law_a_resize_reaches_the_pty(mid, ctx, rows, cols, width, height);
}

/// What a daemon says of itself reaches the terminal; a pane whose shell has ended
/// is not attached to, and its status is told. Anything but a hello is a failure.
pub proof fn law_a_hello_reaches_the_terminal(h: ServerHelloView, rest: Seq<u8>)
    requires
        server_hello_bytes(h).len() <= 65536,
    ensures
        h.shell_state != 1 ==> greeting(
            frame_bytes(FrameType::ServerHello, server_hello_bytes(h)) + rest,
        ) == GreetingView::Hello(h),
        h.shell_state == 1 ==> greeting(
            frame_bytes(FrameType::ServerHello, server_hello_bytes(h)) + rest,
        ) == GreetingView::Failed(AttachErrorView::ShellExited(h.exit_status)),
        greeting(frame_bytes(FrameType::Output, Seq::empty()) + rest) is Failed,
        greeting(Seq::empty()) is Waiting,
{
    law_frame_round_trip(FrameType::ServerHello, server_hello_bytes(h), rest);
    law_server_hello_round_trip(h);
    law_frame_round_trip(FrameType::Output, Seq::empty(), rest);
}

// ---------------------------------------------------------------------------
// A plain terminal.

/// Typing detaches exactly where Ctrl-\ is typed twice in a row, be it in one go
/// or in two.
pub proof fn law_two_keys_in_a_row_detach(last: bool, data: Seq<u8>)
    ensures
        detaches(last, data) <==> (last && data.len() > 0 && data[0] == 0x1C) || exists|i: int|
            0 < i < data.len() && data[i - 1] == 0x1C && #[trigger] data[i] == 0x1C,
    decreases data.len(),
{
    if data.len() > 0 {
        let rest = data.skip(1);
        law_two_keys_in_a_row_detach(data[0] == 0x1C, rest);
        if exists|i: int| 0 < i < data.len() && data[i - 1] == 0x1C && #[trigger] data[i] == 0x1C {
            let i = choose|i: int|
                0 < i < data.len() && data[i - 1] == 0x1C && #[trigger] data[i] == 0x1C;
            if i > 1 {
                assert(rest[i - 1] == 0x1C && rest[i - 2] == 0x1C);
            } else {
                assert(rest[0] == 0x1C);
            }
        }
        if exists|i: int| 0 < i < rest.len() && rest[i - 1] == 0x1C && #[trigger] rest[i] == 0x1C {
            let i = choose|i: int|
                0 < i < rest.len() && rest[i - 1] == 0x1C && #[trigger] rest[i] == 0x1C;
            assert(data[i] == 0x1C && data[i + 1] == 0x1C);
        }
        if data[0] == 0x1C && rest.len() > 0 && rest[0] == 0x1C {
            assert(data[1] == 0x1C);
        }
    }
}

/// What is typed and does not detach is sent as it was typed, behind what waits;
/// what detaches is not sent. Whether the key was the last one is remembered.
pub proof fn law_typing_is_sent(v: InteractiveView, data: Seq<u8>)
    requires
        data.len() > 0,
    ensures
        ({
            let after = after_typing(v, data);
            &&& after.inbox == v.inbox
            &&& detaches(v.last_was_key, data) ==> after.pending_out == v.pending_out
            &&& !detaches(v.last_was_key, data) ==> after.pending_out == v.pending_out
                + frame_bytes(FrameType::Stdin, data) && (after.last_was_key <==> data[data.len()
                - 1] == 0x1C)
        }),
{
}

/// A terminal that takes another size says so, behind what waits.
pub proof fn law_resizing_is_sent(v: InteractiveView, rows: u16, cols: u16)
    ensures
        after_resizing(v, rows, cols) == (InteractiveView {
            pending_out: v.pending_out + frame_bytes(
                FrameType::Resize,
                le16(rows) + le16(cols) + le16(0) + le16(0),
            ),
            ..v
        }),
{
}

/// Output is shown in its order; the end of the shell ends the attachment with its
/// status, and a detachment and a refusal end it too. Nothing else is shown.
pub proof fn law_what_a_terminal_is_shown(
    before: Seq<u8>,
    payload: Seq<u8>,
    code: i32,
    reason: u8,
    rest: Seq<u8>,
)
    requires
        payload.len() <= 65536,
    ensures
        incoming(before, frame_bytes(FrameType::Output, payload) + rest) == incoming(
            before + payload,
            rest,
        ),
        incoming(before, frame_bytes(FrameType::Exited, le32(bits_of(code))) + rest).ending == Some(
            EndingView::Exited(code),
        ),
        incoming(before, frame_bytes(FrameType::Exited, le32(bits_of(code))) + rest).output
            == before,
        incoming(before, frame_bytes(FrameType::Detached, seq![reason]) + rest).ending == Some(
            EndingView::Detached,
        ),
        incoming(before, frame_bytes(FrameType::Error, payload) + rest).ending
            matches Some(EndingView::Refused(_)),
        incoming(before, frame_bytes(FrameType::Pong, payload) + rest) == incoming(before, rest),
        incoming(before, frame_bytes(FrameType::ReplayBegin, payload) + rest) == incoming(
            before,
            rest,
        ),
        incoming(before, frame_bytes(FrameType::ReplayEnd, payload) + rest) == incoming(
            before,
            rest,
        ),
        incoming(before, Seq::empty()).output == before,
{
    law_frame_round_trip(FrameType::Output, payload, rest);
    law_frame_round_trip(FrameType::Exited, le32(bits_of(code)), rest);
    law_frame_round_trip(FrameType::Detached, seq![reason], rest);
    law_frame_round_trip(FrameType::Error, payload, rest);
    law_frame_round_trip(FrameType::Pong, payload, rest);
    law_frame_round_trip(FrameType::ReplayBegin, payload, rest);
    law_frame_round_trip(FrameType::ReplayEnd, payload, rest);
    let status = le32(bits_of(code));
    crate::protocol::lemma_le32(Seq::empty(), bits_of(code), Seq::empty());
    assert(Seq::<u8>::empty() + status + Seq::<u8>::empty() =~= status);
}

/// An attachment ends with the status of the shell, well where it was detached,
/// and with an error where it was refused or broke.
pub proof fn law_the_code_of_an_attachment(ending: &Ending, code: i32)
    requires
        call_ensures(final_code, (ending,), code),
    ensures
        ending@ matches EndingView::Exited(c) && c > 0 ==> code == ending@->Exited_0,
        ending@ matches EndingView::Exited(c) && c <= 0 ==> code == 0,
        ending@ is Detached ==> code == 0,
        ending@ is Refused || ending@ is Broken ==> code == 1,
{
}

/// A relay goes on until standard input is over and all of it was sent.
pub proof fn law_a_relay_sends_everything(stdin_open: bool, to_socket: usize, over: bool)
    requires
        call_ensures(relay_done, (stdin_open, to_socket), over),
    ensures
        over ==> !stdin_open && to_socket == 0,
        !stdin_open && to_socket == 0 ==> over,
{
}

// ---------------------------------------------------------------------------
// A terminal behind a daemon.

proof fn lemma_whole_frame(v: ReaderView, typ: FrameType, payload: Seq<u8>)
    requires
        v.place == Place::Header(Seq::empty()),
        payload.len() <= 65536,
    ensures
        ({
            let frame = frame_bytes(typ, payload);
            let hdr = frame.take(8);
            &&& after_bytes(v, hdr) == crate::remote::after_header(v, hdr)
            &&& le32_at(hdr, 0) == payload.len()
            &&& hdr[4] == crate::protocol::type_byte(typ)
            &&& frame.skip(8) == payload
        }),
{
    let frame = frame_bytes(typ, payload);
    let hdr = frame.take(8);
    assert(Seq::<u8>::empty() + hdr =~= hdr);
    assert(frame.skip(8) =~= payload);
    law_frame_round_trip(typ, payload, Seq::empty());
    assert(frame + Seq::<u8>::empty() =~= frame);
    assert(le32_at(hdr, 0) == le32_at(frame, 0));
}

/// The end of a shell is told with its status and ends the stream; it is no lost
/// link. A detachment is one: the shell lives on.
pub proof fn law_an_exit_is_no_lost_link(v: ReaderView, code: i32, reason: u8)
    requires
        v.place == Place::Header(Seq::empty()),
        v.exited is None,
        !v.link_lost,
    ensures
        ({
            let frame = frame_bytes(FrameType::Exited, le32(bits_of(code)));
            let h = after_bytes(v, frame.take(8)).0;
            let (after, taken) = after_bytes(h, frame.skip(8));
            &&& taken == Taken::Ended
            &&& after.exited == Some(code)
            &&& !after.link_lost
            &&& after.exit_signaled
            &&& !ended(after).link_lost
        }),
        ({
            let frame = frame_bytes(FrameType::Detached, seq![reason]);
            let h = after_bytes(v, frame.take(8)).0;
            let (after, taken) = after_bytes(h, frame.skip(8));
            &&& taken == Taken::Ended
            &&& after.exited is None
            &&& after.link_lost
            &&& after.exit_signaled
        }),
{
    let status = le32(bits_of(code));
    lemma_whole_frame(v, FrameType::Exited, status);
    lemma_whole_frame(v, FrameType::Detached, seq![reason]);
    crate::protocol::lemma_le32(Seq::empty(), bits_of(code), Seq::empty());
    assert(Seq::<u8>::empty() + status + Seq::<u8>::empty() =~= status);
    assert(Seq::<u8>::empty() + status =~= status);
    assert(Seq::<u8>::empty() + seq![reason] =~= seq![reason]);
}

/// A stream that ends without the end of the shell is a lost link, and nothing is
/// read after either.
pub proof fn law_a_stream_that_just_ends_is_a_lost_link(v: ReaderView)
    ensures
        v.exited is None ==> ended(v).link_lost,
        v.exited is Some && !v.link_lost ==> !ended(v).link_lost,
        ended(v).exit_signaled,
        ended(v).exited == v.exited,
        over(ended(v)),
{
}

/// The marks of a replay switch it on and off and change nothing else.
pub proof fn law_a_replay_has_two_ends(v: ReaderView)
    requires
        v.place == Place::Header(Seq::empty()),
        v.exited is None,
        !v.link_lost,
    ensures
        after_bytes(v, frame_bytes(FrameType::ReplayEnd, Seq::empty())) == (
            ReaderView { in_replay: false, ..v },
            Taken::More,
        ),
        ({
            let frame = frame_bytes(FrameType::ReplayBegin, crate::daemon::le64(0));
            let h = after_bytes(v, frame.take(8)).0;
            after_bytes(h, frame.skip(8)) == (
                ReaderView { in_replay: true, ..v },
                Taken::More,
            )
        }),
{
    let none = Seq::<u8>::empty();
    lemma_whole_frame(v, FrameType::ReplayEnd, none);
    let end = frame_bytes(FrameType::ReplayEnd, none);
    assert(end.take(8) =~= end);
    let size = crate::daemon::le64(0);
    lemma_whole_frame(v, FrameType::ReplayBegin, size);
    assert(none + size =~= size);
}

// ---------------------------------------------------------------------------
// Picking a pane.

/// The panes of another host that can be picked are those with a live daemon,
/// under their own ids, in the order of the listing.
pub proof fn law_only_live_panes_are_picked(entries: Seq<RemoteEntryView>, i: int)
    requires
        0 <= i < entries.len(),
    ensures
        ({
            let e = entries[i];
            let label = picker_label(e);
            &&& e.pane_id is Some && e.alive == Some(true) ==> picks(entries).contains(
                (e.pane_id->0, label),
            )
            &&& picks(entries).len() <= entries.len()
        }),
        forall|k: int|
            0 <= k < picks(entries).len() ==> exists|j: int|
                0 <= j < entries.len() && (#[trigger] entries[j]).alive == Some(true)
                    && entries[j].pane_id == Some((#[trigger] picks(entries)[k]).0),
    decreases entries.len(),
{
    let init = entries.drop_last();
    let before = picks(init);
    let all = picks(entries);
    let last = entries.len() - 1;
    assert(entries[last] == entries.last());
    if init.len() > 0 {
        let at = if i < last {
            i
        } else {
            0
        };
        law_only_live_panes_are_picked(init, at);
        assert(init[at] == entries[at]);
        if i < last && before.contains((entries[i].pane_id->0, picker_label(entries[i]))) {
            let x = before.index_of((entries[i].pane_id->0, picker_label(entries[i])));
            assert(all[x] == before[x]);
        }
    }
    assert forall|k: int| 0 <= k < all.len() implies exists|j: int|
        0 <= j < entries.len() && (#[trigger] entries[j]).alive == Some(true) && entries[j].pane_id
            == Some((#[trigger] all[k]).0) by {
        if k < before.len() {
            assert(all[k] == before[k]);
            let j = choose|j: int|
                0 <= j < init.len() && (#[trigger] init[j]).alive == Some(true) && init[j].pane_id
                    == Some(before[k].0);
            assert(entries[j] == init[j]);
        } else {
            assert(entries[last].pane_id == Some(all[k].0));
        }
    }
    if i == last && crate::remote::pickable(entries.last()) {
        assert(all.last() == (entries[i].pane_id->0, picker_label(entries[i])));
    }
}

} // verus!
