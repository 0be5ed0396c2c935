//! What the sequences of a terminal do to the modes that are followed, byte for
//! byte.
use crate::modes::{
    apply_params, at, law_advance_in_pieces, lemma_push_contains, lemma_run_2, lemma_run_3,
    lemma_run_private, lemma_run_push, lemma_without, private_sequence, run,
    ModesView, Position, TrackerView,
};
use crate::text::{decimal, free_of_controls, lossy_text};
use vstd::prelude::*;
use vstd::utf8::{encode_utf8, encode_utf8_decode_utf8, encode_utf8_valid_utf8};

verus! {

/// A terminal between two sequences.
pub open spec fn idle(m: ModesView) -> TrackerView {
    TrackerView { position: Position::Ground, modes: m }
}

/// How an OSC may end: by BEL, by ST, or where it is broken off.
pub open spec fn is_osc_end(end: Seq<u8>) -> bool {
    end == seq![0x07u8] || end == seq![0x1Bu8, 0x5C] || end == seq![0x18u8] || end == seq![0x1Au8]
}

/// `OSC body end`.
pub open spec fn osc(body: Seq<u8>, end: Seq<u8>) -> Seq<u8> {
    seq![0x1Bu8, 0x5D] + body + end
}

/// The first 520 bytes.
spec fn osc_kept(body: Seq<u8>) -> Seq<u8> {
    if body.len() > 520 {
        body.take(520)
    } else {
        body
    }
}

proof fn lemma_osc_body(m: ModesView, bytes: Seq<u8>)
    requires
        forall|i: int| 0 <= i < bytes.len() ==> #[trigger] bytes[i] >= 0x20,
    ensures
        run(at(Position::Osc { body: Seq::empty() }, m), bytes) == at(
            Position::Osc { body: osc_kept(bytes) },
            m,
        ),
    decreases bytes.len(),
{
    if bytes.len() > 0 {
        let init = bytes.drop_last();
        assert forall|i: int| 0 <= i < init.len() implies #[trigger] init[i] >= 0x20 by {
            assert(init[i] == bytes[i]);
        }
        lemma_osc_body(m, init);
        assert(bytes[bytes.len() - 1] >= 0x20);
        if bytes.len() <= 520 {
            assert(init.push(bytes.last()) =~= bytes);
        } else {
            assert(osc_kept(init) =~= osc_kept(bytes));
        }
    } else {
        assert(bytes =~= Seq::<u8>::empty());
    }
}

/// An OSC before its end.
spec fn osc_open(body: Seq<u8>) -> Seq<u8> {
    seq![0x1Bu8, 0x5D] + body
}

proof fn lemma_osc_open(m: ModesView, body: Seq<u8>)
    requires
        forall|i: int| 0 <= i < body.len() ==> #[trigger] body[i] >= 0x20,
    ensures
        run(idle(m), osc_open(body)) == at(Position::Osc { body: osc_kept(body) }, m),
{
    lemma_run_2(idle(m), 0x1B, 0x5D);
    law_advance_in_pieces(idle(m), seq![0x1Bu8, 0x5D], body);
    lemma_osc_body(m, body);
}

proof fn lemma_osc(m: ModesView, body: Seq<u8>, end: Seq<u8>)
    requires
        is_osc_end(end),
        forall|i: int| 0 <= i < body.len() ==> #[trigger] body[i] >= 0x20,
    ensures
        run(idle(m), osc(body, end)) == at(Position::Ground, crate::modes::end_osc(m, osc_kept(body))),
{
    let t = idle(m);
    lemma_osc_open(m, body);
    law_advance_in_pieces(t, osc_open(body), end);
    let mid = run(t, osc_open(body));
    if end == seq![0x1Bu8, 0x5C] {
        lemma_run_2(mid, 0x1B, 0x5C);
    } else {
        lemma_run_push(mid, Seq::empty(), end[0]);
        assert(end =~= Seq::empty().push(end[0]));
    }
}

/// An OSC whose body does not begin with `0;` or `2;` leaves all modes as they
/// were, the title among them: shells report their directory and mark links by
/// such ones.
pub proof fn law_other_oscs_leave_the_title(m: ModesView, body: Seq<u8>, end: Seq<u8>)
    requires
        is_osc_end(end),
        forall|i: int| 0 <= i < body.len() ==> #[trigger] body[i] >= 0x20,
        !(seq![0x30u8, 0x3B].is_prefix_of(body)),
        !(seq![0x32u8, 0x3B].is_prefix_of(body)),
    ensures
        run(idle(m), osc(body, end)) == idle(m),
{
    lemma_osc(m, body, end);
    if body.len() >= 2 && body[1] == 0x3B {
        assert(osc_kept(body)[0] == body[0] && osc_kept(body)[1] == body[1]);
        if body[0] == 0x30 {
            assert(seq![0x30u8, 0x3B] =~= body.subrange(0, 2));
        }
        if body[0] == 0x32 {
            assert(seq![0x32u8, 0x3B] =~= body.subrange(0, 2));
        }
    }
}

/// An OSC 0 or 2 sets the title to the text behind it, and nothing else.
pub proof fn law_an_osc_sets_its_title(m: ModesView, number: u8, title: Seq<char>, end: Seq<u8>)
    requires
        is_osc_end(end),
        number == 0x30 || number == 0x32,
        free_of_controls(title),
        encode_utf8(title).len() <= 512,
    ensures
        run(idle(m), osc(seq![number, 0x3Bu8] + encode_utf8(title), end)) == idle(
            ModesView { title: Some(title), ..m },
        ),
{
    let bytes = encode_utf8(title);
    let body = seq![number, 0x3Bu8] + bytes;
    crate::text::lemma_encoding_free_of_controls(title);
    assert forall|i: int| 0 <= i < body.len() implies #[trigger] body[i] >= 0x20 by {
        if i >= 2 {
            assert(body[i] == bytes[i - 2]);
        }
    }
    lemma_osc(m, body, end);
    assert(osc_kept(body) == body);
    assert(body.skip(2) =~= bytes);
    encode_utf8_valid_utf8(title);
    encode_utf8_decode_utf8(title);
}

/// Of a title that is too long the beginning is kept.
pub proof fn law_a_long_title_keeps_its_beginning(
    m: ModesView,
    number: u8,
    bytes: Seq<u8>,
    end: Seq<u8>,
)
    requires
        is_osc_end(end),
        number == 0x30 || number == 0x32,
        forall|i: int| 0 <= i < bytes.len() ==> #[trigger] bytes[i] >= 0x20,
        bytes.len() > 512,
    ensures
        run(idle(m), osc(seq![number, 0x3Bu8] + bytes, end)) == idle(
            ModesView { title: Some(lossy_text(bytes.take(512))), ..m },
        ),
{
    let body = seq![number, 0x3Bu8] + bytes;
    assert forall|i: int| 0 <= i < body.len() implies #[trigger] body[i] >= 0x20 by {
        if i >= 2 {
            assert(body[i] == bytes[i - 2]);
        }
    }
    lemma_osc(m, body, end);
    let kept = osc_kept(body);
    assert(kept.skip(2).take(512) =~= bytes.take(512));
    if kept.skip(2).len() <= 512 {
        assert(false);
    }
}

/// An OSC that another sequence breaks into has ended: what it says counts, and
/// the other sequence is read from its beginning.
pub proof fn law_a_sequence_ends_an_osc(m: ModesView, body: Seq<u8>, next: u8)
    requires
        forall|i: int| 0 <= i < body.len() ==> #[trigger] body[i] >= 0x20,
        next != 0x5C,
    ensures
        run(idle(m), seq![0x1Bu8, 0x5D] + body + seq![0x1Bu8, next]) == run(
            run(idle(m), osc(body, seq![0x07u8])),
            seq![0x1Bu8, next],
        ),
{
    lemma_osc_open(m, body);
    lemma_osc(m, body, seq![0x07u8]);
    law_advance_in_pieces(idle(m), osc_open(body), seq![0x1Bu8, next]);
    lemma_run_2(run(idle(m), osc_open(body)), 0x1B, next);
    lemma_run_2(run(idle(m), osc(body, seq![0x07u8])), 0x1B, next);
}

/// A control inside an OSC that does not end it is not part of it.
pub proof fn law_controls_are_no_part_of_an_osc(m: ModesView, body: Seq<u8>, control: u8)
    requires
        forall|i: int| 0 <= i < body.len() ==> #[trigger] body[i] >= 0x20,
        control < 0x20,
        control != 0x07,
        control != 0x18,
        control != 0x1A,
        control != 0x1B,
    ensures
        run(idle(m), (seq![0x1Bu8, 0x5D] + body).push(control)) == run(
            idle(m),
            seq![0x1Bu8, 0x5D] + body,
        ),
{
    lemma_osc_open(m, body);
    lemma_run_push(idle(m), osc_open(body), control);
}

/// What is written between sequences changes no mode.
pub proof fn law_plain_output_changes_no_mode(m: ModesView, bytes: Seq<u8>)
    requires
        forall|i: int| 0 <= i < bytes.len() ==> #[trigger] bytes[i] != 0x1B,
    ensures
        run(idle(m), bytes) == idle(m),
    decreases bytes.len(),
{
    if bytes.len() > 0 {
        let init = bytes.drop_last();
        assert forall|i: int| 0 <= i < init.len() implies #[trigger] init[i] != 0x1B by {
            assert(init[i] == bytes[i]);
        }
        law_plain_output_changes_no_mode(m, init);
        assert(bytes[bytes.len() - 1] != 0x1B);
    }
}

/// `CSI ? digits h` or `CSI ? digits l`.
pub open spec fn private(digits: Seq<u8>, set: bool) -> Seq<u8> {
    seq![0x1Bu8, 0x5B, 0x3F] + digits + seq![
        if set {
            0x68u8
        } else {
            0x6Cu8
        },
    ]
}

proof fn lemma_private(m: ModesView, digits: Seq<u8>, mode: u16, set: bool)
    requires
        digits == decimal(mode as nat),
    ensures
        run(idle(m), private(digits, set)) == at(
            Position::Ground,
            crate::modes::apply_private(m, mode, set),
        ),
{
    reveal(private_sequence);
    lemma_run_private(m, mode, set);
    assert(private(digits, set) =~= private_sequence(mode, set));
}

proof fn lemma_decimals()
    ensures
        decimal(1) == seq![0x31u8],
        decimal(7) == seq![0x37u8],
        decimal(25) == seq![0x32u8, 0x35],
        decimal(47) == seq![0x34u8, 0x37],
        decimal(1047) == seq![0x31u8, 0x30, 0x34, 0x37],
        decimal(1049) == seq![0x31u8, 0x30, 0x34, 0x39],
        decimal(1004) == seq![0x31u8, 0x30, 0x30, 0x34],
        decimal(2004) == seq![0x32u8, 0x30, 0x30, 0x34],
        decimal(1048) == seq![0x31u8, 0x30, 0x34, 0x38],
{
    reveal_with_fuel(decimal, 5);
    assert(decimal(1) =~= seq![0x31u8]);
    assert(decimal(7) =~= seq![0x37u8]);
    assert(decimal(25) =~= seq![0x32u8, 0x35]);
    assert(decimal(47) =~= seq![0x34u8, 0x37]);
    assert(decimal(1047) =~= seq![0x31u8, 0x30, 0x34, 0x37]);
    assert(decimal(1049) =~= seq![0x31u8, 0x30, 0x34, 0x39]);
    assert(decimal(1004) =~= seq![0x31u8, 0x30, 0x30, 0x34]);
    assert(decimal(2004) =~= seq![0x32u8, 0x30, 0x30, 0x34]);
    assert(decimal(1048) =~= seq![0x31u8, 0x30, 0x34, 0x38]);
}

/// Each private mode stands for one thing: 1 for the cursor keys, 25 for the
/// visible cursor, 7 for wrapping, 47, 1047 and 1049 for the alternate screen,
/// 1004 for focus reports and 2004 for bracketed pastes. 1048 saves the cursor and
/// is none of these.
pub proof fn law_each_private_mode_is_its_own(m: ModesView, set: bool)
    ensures
        run(idle(m), private(seq![0x31u8], set)) == idle(ModesView { app_cursor_keys: set, ..m }),
        run(idle(m), private(seq![0x32u8, 0x35], set)) == idle(
            ModesView { cursor_hidden: !set, ..m },
        ),
        run(idle(m), private(seq![0x37u8], set)) == idle(ModesView { autowrap_off: !set, ..m }),
        run(idle(m), private(seq![0x31u8, 0x30, 0x30, 0x34], set)) == idle(
            ModesView { focus_reporting: set, ..m },
        ),
        run(idle(m), private(seq![0x32u8, 0x30, 0x30, 0x34], set)) == idle(
            ModesView { bracketed_paste: set, ..m },
        ),
        run(idle(m), private(seq![0x34u8, 0x37], true)) == idle(
            ModesView { alt_screen: Some(47), ..m },
        ),
        run(idle(m), private(seq![0x31u8, 0x30, 0x34, 0x37], true)) == idle(
            ModesView { alt_screen: Some(1047), ..m },
        ),
        run(idle(m), private(seq![0x31u8, 0x30, 0x34, 0x39], true)) == idle(
            ModesView { alt_screen: Some(1049), ..m },
        ),
        run(idle(m), private(seq![0x34u8, 0x37], false)) == idle(ModesView { alt_screen: None, ..m }),
        run(idle(m), private(seq![0x31u8, 0x30, 0x34, 0x37], false)) == idle(
            ModesView { alt_screen: None, ..m },
        ),
        run(idle(m), private(seq![0x31u8, 0x30, 0x34, 0x39], false)) == idle(
            ModesView { alt_screen: None, ..m },
        ),
        run(idle(m), private(seq![0x31u8, 0x30, 0x34, 0x38], set)) == idle(m),
{
    lemma_decimals();
    lemma_private(m, decimal(1), 1, set);
    lemma_private(m, decimal(25), 25, set);
    lemma_private(m, decimal(7), 7, set);
    lemma_private(m, decimal(1004), 1004, set);
    lemma_private(m, decimal(2004), 2004, set);
    lemma_private(m, decimal(47), 47, true);
    lemma_private(m, decimal(1047), 1047, true);
    lemma_private(m, decimal(1049), 1049, true);
    lemma_private(m, decimal(47), 47, false);
    lemma_private(m, decimal(1047), 1047, false);
    lemma_private(m, decimal(1049), 1049, false);
    lemma_private(m, decimal(1048), 1048, set);
}

/// The mouse modes are 1000, 1002, 1003, 1005, 1006 and 1015: setting one has it
/// reported, resetting it does not, and neither touches another one or anything
/// else.
pub proof fn law_mouse_modes_come_and_go(m: ModesView, mode: u16, set: bool)
    requires
        mode == 1000 || mode == 1002 || mode == 1003 || mode == 1005 || mode == 1006 || mode
            == 1015,
    ensures
        ({
            let after = run(idle(m), private(decimal(mode as nat), set));
            &&& after == idle(ModesView { mouse: after.modes.mouse, ..m })
            &&& after.modes.mouse.contains(mode) == set
            &&& forall|x: u16|
                x != mode ==> (#[trigger] after.modes.mouse.contains(x) <==> m.mouse.contains(x))
        }),
{
    lemma_private(m, decimal(mode as nat), mode, set);
    lemma_without(m.mouse, mode);
    assert forall|x: u16| m.mouse.push(mode).contains(x) <==> m.mouse.contains(x) || x == mode by {
        lemma_push_contains(m.mouse, mode, x);
    }
}

/// `ESC =` and `ESC >` switch the keypad, and `ESC c` resets everything.
pub proof fn law_keypad_and_reset(m: ModesView)
    ensures
        run(idle(m), seq![0x1Bu8, 0x3D]) == idle(ModesView { app_keypad: true, ..m }),
        run(idle(m), seq![0x1Bu8, 0x3E]) == idle(ModesView { app_keypad: false, ..m }),
        ({
            let after = run(idle(m), seq![0x1Bu8, 0x63]);
            &&& after.position is Ground
            &&& !after.modes.app_cursor_keys && !after.modes.cursor_hidden
            &&& !after.modes.autowrap_off && !after.modes.focus_reporting
            &&& !after.modes.bracketed_paste && !after.modes.app_keypad
            &&& after.modes.alt_screen is None && after.modes.title is None
            &&& after.modes.mouse.len() == 0
        }),
{
    lemma_run_2(idle(m), 0x1B, 0x3D);
    lemma_run_2(idle(m), 0x1B, 0x3E);
    lemma_run_2(idle(m), 0x1B, 0x63);
}

/// The tracker stands in a CSI that is not private, with the modes as they were.
spec fn in_csi(t: TrackerView, m: ModesView, secret: bool) -> bool {
    t.modes == m && (t.position matches Position::Csi { private, .. } && private == secret)
}

proof fn lemma_csi_params(t: TrackerView, m: ModesView, bytes: Seq<u8>, secret: bool)
    requires
        in_csi(t, m, secret),
        forall|i: int| 0 <= i < bytes.len() ==> 0x30 <= #[trigger] bytes[i] <= 0x3B,
    ensures
        in_csi(run(t, bytes), m, secret),
    decreases bytes.len(),
{
    if bytes.len() > 0 {
        let init = bytes.drop_last();
        assert forall|i: int| 0 <= i < init.len() implies 0x30 <= #[trigger] init[i] <= 0x3B by {
            assert(init[i] == bytes[i]);
        }
        lemma_csi_params(t, m, init, secret);
        assert(0x30 <= bytes[bytes.len() - 1] <= 0x3B);
    }
}

/// A CSI without the question mark changes no mode, and one with it only where it
/// ends in `h` or `l`: colors and movements leave the modes alone.
pub proof fn law_other_sequences_change_no_mode(
    m: ModesView,
    secret: bool,
    params: Seq<u8>,
    last: u8,
)
    requires
        forall|i: int| 0 <= i < params.len() ==> 0x30 <= #[trigger] params[i] <= 0x3B,
        0x40 <= last <= 0x7E,
        secret ==> last != 0x68 && last != 0x6C,
    ensures
        run(
            idle(m),
            seq![0x1Bu8, 0x5B] + (if secret {
                seq![0x3Fu8]
            } else {
                Seq::empty()
            }) + params + seq![last],
        ) == idle(m),
{
    let t = idle(m);
    let mark = if secret {
        seq![0x3Fu8]
    } else {
        Seq::<u8>::empty()
    };
    let intro = seq![0x1Bu8, 0x5B] + mark;
    if secret {
        lemma_run_3(t, 0x1B, 0x5B, 0x3F);
        assert(intro =~= seq![0x1Bu8, 0x5B, 0x3F]);
    } else {
        lemma_run_2(t, 0x1B, 0x5B);
        assert(intro =~= seq![0x1Bu8, 0x5B]);
    }
    let open = run(t, intro);
    assert(in_csi(open, m, secret));
    lemma_csi_params(open, m, params, secret);
    law_advance_in_pieces(t, intro, params);
    law_advance_in_pieces(t, intro + params, seq![last]);
    let mid = run(t, intro + params);
    lemma_run_push(mid, Seq::empty(), last);
    assert(seq![last] =~= Seq::empty().push(last));
}

proof fn lemma_string(m: ModesView, bytes: Seq<u8>)
    requires
        forall|i: int|
            0 <= i < bytes.len() ==> #[trigger] bytes[i] != 0x1B && bytes[i] != 0x18 && bytes[i]
                != 0x1A,
    ensures
        run(at(Position::Str, m), bytes) == at(Position::Str, m),
    decreases bytes.len(),
{
    if bytes.len() > 0 {
        let init = bytes.drop_last();
        assert forall|i: int| 0 <= i < init.len() implies #[trigger] init[i] != 0x1B && init[i]
            != 0x18 && init[i] != 0x1A by {
            assert(init[i] == bytes[i]);
        }
        lemma_string(m, init);
        assert(bytes[bytes.len() - 1] != 0x1B);
    }
}

/// What a DCS, SOS, PM or APC holds changes no mode: images are sent that way.
pub proof fn law_strings_change_no_mode(m: ModesView, kind: u8, bytes: Seq<u8>)
    requires
        kind == 0x50 || kind == 0x58 || kind == 0x5E || kind == 0x5F,
        forall|i: int|
            0 <= i < bytes.len() ==> #[trigger] bytes[i] != 0x1B && bytes[i] != 0x18 && bytes[i]
                != 0x1A,
    ensures
        run(idle(m), seq![0x1Bu8, kind] + bytes + seq![0x1Bu8, 0x5C]) == idle(m),
{
    let t = idle(m);
    let intro = seq![0x1Bu8, kind];
    lemma_run_2(t, 0x1B, kind);
    lemma_string(m, bytes);
    law_advance_in_pieces(t, intro, bytes);
    law_advance_in_pieces(t, intro + bytes, seq![0x1Bu8, 0x5C]);
    lemma_run_2(run(t, intro + bytes), 0x1B, 0x5C);
}

proof fn lemma_second_decimal(m: ModesView, first: u16, n: nat)
    requires
        n <= 0xFFFF,
    ensures
        run(
            at(
                Position::Csi { private: true, params: seq![first], current: 0, has_current: false },
                m,
            ),
            decimal(n),
        ) == at(
            Position::Csi {
                private: true,
                params: seq![first],
                current: n as u16,
                has_current: true,
            },
            m,
        ),
    decreases n,
{
    let t = at(
        Position::Csi { private: true, params: seq![first], current: 0, has_current: false },
        m,
    );
    if n < 10 {
        lemma_run_push(t, Seq::empty(), (0x30 + n) as u8);
        assert(decimal(n) =~= Seq::empty().push((0x30 + n) as u8));
    } else {
        lemma_second_decimal(m, first, n / 10);
        lemma_run_push(t, decimal(n / 10), (0x30 + n % 10) as u8);
    }
}

/// Two private modes in one sequence do what they do one after the other.
pub proof fn law_modes_can_be_set_together(m: ModesView, first: u16, second: u16, set: bool)
    ensures
        run(idle(m), private(decimal(first as nat).push(0x3B) + decimal(second as nat), set))
            == run(
            run(idle(m), private(decimal(first as nat), set)),
            private(decimal(second as nat), set),
        ),
{
    let t = idle(m);
    let a = decimal(first as nat);
    let b = decimal(second as nat);
    let end = if set {
        0x68u8
    } else {
        0x6Cu8
    };
    lemma_private(m, a, first, set);
    let mid = crate::modes::apply_private(m, first, set);
    lemma_private(mid, b, second, set);
    let intro = seq![0x1Bu8, 0x5B, 0x3F];
    lemma_run_3(t, 0x1B, 0x5B, 0x3F);
    crate::modes::lemma_run_decimal(m, first as nat);
    law_advance_in_pieces(t, intro, a);
    lemma_run_push(t, intro + a, 0x3B);
    assert(Seq::<u16>::empty().push(first) =~= seq![first]);
    let open = (intro + a).push(0x3B);
    law_advance_in_pieces(t, open, b);
    lemma_second_decimal(m, first, second as nat);
    lemma_run_push(t, open + b, end);
    let whole = private(a.push(0x3B) + b, set);
    assert(whole =~= (open + b).push(end));
    let params = seq![first].push(second);
    assert(params.drop_last() =~= seq![first]);
    assert(seq![first].drop_last() =~= Seq::<u16>::empty());
    reveal_with_fuel(apply_params, 3);
}

/// The choice of a character set changes no mode, whatever the set: the letter at
/// its end is not read as the end of another sequence.
pub proof fn law_a_character_set_changes_no_mode(m: ModesView, marks: Seq<u8>, last: u8)
    requires
        marks.len() > 0,
        forall|i: int| 0 <= i < marks.len() ==> 0x20 <= #[trigger] marks[i] <= 0x2F,
        0x30 <= last <= 0x7E,
    ensures
        run(idle(m), seq![0x1Bu8] + marks + seq![last]) == idle(m),
{
    let t = idle(m);
    lemma_run_push(t, Seq::empty(), 0x1B);
    assert(seq![0x1Bu8] =~= Seq::empty().push(0x1Bu8));
    lemma_marks(m, marks);
    law_advance_in_pieces(t, seq![0x1Bu8], marks);
    lemma_run_push(t, seq![0x1Bu8] + marks, last);
    assert(seq![0x1Bu8] + marks + seq![last] =~= (seq![0x1Bu8] + marks).push(last));
}

proof fn lemma_marks(m: ModesView, marks: Seq<u8>)
    requires
        marks.len() > 0,
        forall|i: int| 0 <= i < marks.len() ==> 0x20 <= #[trigger] marks[i] <= 0x2F,
    ensures
        run(at(Position::Esc, m), marks) == at(Position::EscIntermediate, m),
    decreases marks.len(),
{
    let init = marks.drop_last();
    assert(0x20 <= marks[marks.len() - 1] <= 0x2F);
    if init.len() > 0 {
        assert forall|i: int| 0 <= i < init.len() implies 0x20 <= #[trigger] init[i] <= 0x2F by {
            assert(init[i] == marks[i]);
        }
        lemma_marks(m, init);
    } else {
        assert(init =~= Seq::<u8>::empty());
        assert(run(at(Position::Esc, m), init) == at(Position::Esc, m));
    }
}

/// A sequence that is broken off has changed nothing, and one that begins inside it
/// is read from its beginning.
pub proof fn law_a_broken_sequence_changes_no_mode(
    m: ModesView,
    secret: bool,
    params: Seq<u8>,
    stop: u8,
)
    requires
        forall|i: int| 0 <= i < params.len() ==> 0x30 <= #[trigger] params[i] <= 0x3B,
        stop == 0x18 || stop == 0x1A || stop == 0x1B,
    ensures
        run(
            idle(m),
            (seq![0x1Bu8, 0x5B] + (if secret {
                seq![0x3Fu8]
            } else {
                Seq::empty()
            }) + params).push(stop),
        ) == run(idle(m), seq![stop]),
{
    let t = idle(m);
    let mark = if secret {
        seq![0x3Fu8]
    } else {
        Seq::<u8>::empty()
    };
    let intro = seq![0x1Bu8, 0x5B] + mark;
    if secret {
        lemma_run_3(t, 0x1B, 0x5B, 0x3F);
        assert(intro =~= seq![0x1Bu8, 0x5B, 0x3F]);
    } else {
        lemma_run_2(t, 0x1B, 0x5B);
        assert(intro =~= seq![0x1Bu8, 0x5B]);
    }
    lemma_csi_params(run(t, intro), m, params, secret);
    law_advance_in_pieces(t, intro, params);
    lemma_run_push(t, intro + params, stop);
    lemma_run_push(t, Seq::empty(), stop);
    assert(seq![stop] =~= Seq::empty().push(stop));
}

/// A control inside a sequence does not break it: it is read on from where it
/// stood, and no mode changes.
pub proof fn law_a_control_does_not_break_a_sequence(t: TrackerView, control: u8)
    requires
        t.position is Esc || t.position is EscIntermediate || t.position is Csi,
        control < 0x20 || control == 0x7F,
        control != 0x18,
        control != 0x1A,
        control != 0x1B,
    ensures
        run(t, seq![control]) == t,
{
    lemma_run_push(t, Seq::empty(), control);
    assert(seq![control] =~= Seq::empty().push(control));
}

/// Any other private mode is left to the terminal.
pub proof fn law_other_private_modes_are_not_followed(m: ModesView, mode: u16, set: bool)
    requires
        mode != 1,
        mode != 7,
        mode != 25,
        mode != 47,
        mode != 1047,
        mode != 1049,
        mode != 1000,
        mode != 1002,
        mode != 1003,
        mode != 1005,
        mode != 1006,
        mode != 1015,
        mode != 1004,
        mode != 2004,
    ensures
        run(idle(m), private(decimal(mode as nat), set)) == idle(m),
{
    lemma_private(m, decimal(mode as nat), mode, set);
}

/// The number that digits stand for.
pub open spec fn value_of_digits(digits: Seq<u8>) -> nat
    decreases digits.len(),
{
    if digits.len() == 0 {
        0
    } else {
        (value_of_digits(digits.drop_last()) * 10 + (digits.last() - 0x30)) as nat
    }
}

proof fn lemma_digits(m: ModesView, digits: Seq<u8>)
    requires
        digits.len() > 0,
        forall|i: int| 0 <= i < digits.len() ==> 0x30 <= #[trigger] digits[i] <= 0x39,
    ensures
        run(
            at(
                Position::Csi {
                    private: true,
                    params: Seq::empty(),
                    current: 0,
                    has_current: false,
                },
                m,
            ),
            digits,
        ) == at(
            Position::Csi {
                private: true,
                params: Seq::empty(),
                current: if value_of_digits(digits) > 0xFFFF {
                    0xFFFF
                } else {
                    value_of_digits(digits) as u16
                },
                has_current: true,
            },
            m,
        ),
    decreases digits.len(),
{
    let init = digits.drop_last();
    assert(0x30 <= digits[digits.len() - 1] <= 0x39);
    if init.len() > 0 {
        assert forall|i: int| 0 <= i < init.len() implies 0x30 <= #[trigger] init[i] <= 0x39 by {
            assert(init[i] == digits[i]);
        }
        lemma_digits(m, init);
    } else {
        assert(init =~= Seq::<u8>::empty());
        assert(value_of_digits(init) == 0);
    }
}

/// A number stands for the same mode however many zeros stand before it, and one
/// that is too large for a mode stands for none.
pub proof fn law_a_mode_goes_by_its_number(m: ModesView, digits: Seq<u8>, set: bool)
    requires
        digits.len() > 0,
        forall|i: int| 0 <= i < digits.len() ==> 0x30 <= #[trigger] digits[i] <= 0x39,
    ensures
        value_of_digits(digits) > 0xFFFF ==> run(idle(m), private(digits, set)) == idle(m),
        value_of_digits(digits) <= 0xFFFF ==> run(idle(m), private(digits, set)) == run(
            idle(m),
            private(decimal(value_of_digits(digits)), set),
        ),
{
    let t = idle(m);
    let intro = seq![0x1Bu8, 0x5B, 0x3F];
    let end = if set {
        0x68u8
    } else {
        0x6Cu8
    };
    lemma_run_3(t, 0x1B, 0x5B, 0x3F);
    lemma_digits(m, digits);
    law_advance_in_pieces(t, intro, digits);
    lemma_run_push(t, intro + digits, end);
    assert(private(digits, set) =~= (intro + digits).push(end));
    let n = value_of_digits(digits);
    let number = if n > 0xFFFF {
        0xFFFFu16
    } else {
        n as u16
    };
    let one = seq![number];
    assert(Seq::<u16>::empty().push(number) =~= one);
    assert(one.drop_last() =~= Seq::<u16>::empty());
    reveal_with_fuel(apply_params, 2);
    assert(apply_params(m, one, set) == crate::modes::apply_private(m, number, set));
    if n <= 0xFFFF {
        lemma_private(m, decimal(n), number, set);
    }
}

} // verus!
