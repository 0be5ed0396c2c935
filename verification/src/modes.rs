//! Minimal streaming terminal-mode tracker.
//!
//! Not an emulator: a small state machine that watches the output stream for
//! the handful of mode toggles that must be re-established when a client
//! attaches mid-stream: alternate screen, cursor visibility, autowrap, mouse
//! and focus reporting, bracketed paste, application keypad and cursor keys,
//! and the window title. Everything else is left to the replay ring.
//!
//! Charset designation, scroll region and SGR are not re-established, C1 8-bit
//! introducers are not recognized.
use crate::text::{
    decimal, free_of_controls, from_utf8_lossy, lemma_encoding_free_of_controls, lossy_text,
    push_decimal,
};
use vstd::prelude::*;
use vstd::utf8::{encode_utf8, encode_utf8_decode_utf8, encode_utf8_valid_utf8};

verus! {

/// Parameters of one CSI sequence that are kept; later ones are dropped.
pub const MAX_PARAMS: usize = 16;

/// Bytes of a window title that are kept.
pub const MAX_TITLE: usize = 512;

/// Bytes of an OSC body that are kept.
pub const MAX_OSC: usize = 520;

/// The tracked modes.
#[derive(Clone, Debug, PartialEq)]
pub struct Modes {
    /// `?1`
    pub app_cursor_keys: bool,
    /// `?25`, inverted: the cursor is visible by default.
    pub cursor_hidden: bool,
    /// `?7`, inverted: autowrap is on by default.
    pub autowrap_off: bool,
    /// The variant (47, 1047 or 1049) that entered the alternate screen.
    pub alt_screen: Option<u16>,
    /// 1000/1002/1003/1005/1006/1015, in the order they were set.
    pub mouse: Vec<u16>,
    /// `?1004`
    pub focus_reporting: bool,
    /// `?2004`
    pub bracketed_paste: bool,
    /// `ESC =` / `ESC >`
    pub app_keypad: bool,
    /// OSC 0 / OSC 2
    pub title: Option<String>,
}

/// The mathematical value of [`Modes`].
#[verifier::ext_equal]
pub struct ModesView {
    pub app_cursor_keys: bool,
    pub cursor_hidden: bool,
    pub autowrap_off: bool,
    pub alt_screen: Option<u16>,
    pub mouse: Seq<u16>,
    pub focus_reporting: bool,
    pub bracketed_paste: bool,
    pub app_keypad: bool,
    pub title: Option<Seq<char>>,
}

impl View for Modes {
    type V = ModesView;

    open spec fn view(&self) -> ModesView {
        ModesView {
            app_cursor_keys: self.app_cursor_keys,
            cursor_hidden: self.cursor_hidden,
            autowrap_off: self.autowrap_off,
            alt_screen: self.alt_screen,
            mouse: self.mouse@,
            focus_reporting: self.focus_reporting,
            bracketed_paste: self.bracketed_paste,
            app_keypad: self.app_keypad,
            title: match self.title {
                Some(title) => Some(title@),
                None => None,
            },
        }
    }
}

/// The modes of a terminal just reset.
pub open spec fn default_modes() -> ModesView {
    ModesView {
        app_cursor_keys: false,
        cursor_hidden: false,
        autowrap_off: false,
        alt_screen: None,
        mouse: Seq::empty(),
        focus_reporting: false,
        bracketed_paste: false,
        app_keypad: false,
        title: None,
    }
}

impl Default for Modes {
    fn default() -> (modes: Modes)
        ensures
            modes@ == default_modes(),
    {
        let modes = Modes {
            app_cursor_keys: false,
            cursor_hidden: false,
            autowrap_off: false,
            alt_screen: None,
            mouse: Vec::new(),
            focus_reporting: false,
            bracketed_paste: false,
            app_keypad: false,
            title: None,
        };
        assert(modes@ =~= default_modes());
        modes
    }
}

/// Where the tracker stands inside an escape sequence.
pub enum Position {
    Ground,
    Esc,
    EscIntermediate,
    Csi { private: bool, params: Seq<u16>, current: u16, has_current: bool },
    Osc { body: Seq<u8> },
    OscEsc { body: Seq<u8> },
    Str,
    StrEsc,
}

/// The mathematical value of a [`ModeTracker`].
pub struct TrackerView {
    pub position: Position,
    pub modes: ModesView,
}

/// Whether `mode` reports mouse activity.
pub open spec fn is_mouse_mode(mode: u16) -> bool {
    mode == 1000 || mode == 1002 || mode == 1003 || mode == 1005 || mode == 1006 || mode == 1015
}

/// Whether `mode` switches to the alternate screen. 1048 only saves the cursor.
pub open spec fn is_alt_screen_mode(mode: u16) -> bool {
    mode == 47 || mode == 1047 || mode == 1049
}

/// Whether `mode` is among those that are followed.
pub open spec fn is_tracked(mode: u16) -> bool {
    mode == 1 || mode == 7 || mode == 25 || mode == 1004 || mode == 2004 || is_mouse_mode(mode)
        || is_alt_screen_mode(mode)
}

/// The sequence without any occurrence of `mode`, in order.
pub open spec fn without(modes: Seq<u16>, mode: u16) -> Seq<u16> {
    modes.filter(|m: u16| m != mode)
}

/// The modes after DECSET (`set`) or DECRST of one private mode.
pub open spec fn apply_private(m: ModesView, mode: u16, set: bool) -> ModesView {
    if mode == 1 {
        ModesView { app_cursor_keys: set, ..m }
    } else if mode == 7 {
        ModesView { autowrap_off: !set, ..m }
    } else if mode == 25 {
        ModesView { cursor_hidden: !set, ..m }
    } else if is_alt_screen_mode(mode) {
        ModesView {
            alt_screen: if set {
                Some(mode)
            } else {
                None
            },
            ..m
        }
    } else if is_mouse_mode(mode) {
        ModesView {
            mouse: if !set {
                without(m.mouse, mode)
            } else if m.mouse.contains(mode) {
                m.mouse
            } else {
                m.mouse.push(mode)
            },
            ..m
        }
    } else if mode == 1004 {
        ModesView { focus_reporting: set, ..m }
    } else if mode == 2004 {
        ModesView { bracketed_paste: set, ..m }
    } else {
        m
    }
}

/// The modes after each parameter in turn.
pub open spec fn apply_params(m: ModesView, params: Seq<u16>, set: bool) -> ModesView
    decreases params.len(),
{
    if params.len() == 0 {
        m
    } else {
        apply_private(apply_params(m, params.drop_last(), set), params.last(), set)
    }
}

/// The parameter list when the current parameter ends.
pub open spec fn end_param(params: Seq<u16>, current: u16, has_current: bool) -> Seq<u16> {
    if has_current && params.len() < MAX_PARAMS {
        params.push(current)
    } else {
        params
    }
}

/// A parameter with one more digit, clamped to `u16`.
pub open spec fn append_digit(current: u16, digit: u8) -> u16 {
    if current * 10 + digit > 0xFFFF {
        0xFFFF
    } else {
        (current * 10 + digit) as u16
    }
}

/// The first `MAX_TITLE` bytes.
pub open spec fn title_bytes(rest: Seq<u8>) -> Seq<u8> {
    if rest.len() > MAX_TITLE {
        rest.take(MAX_TITLE as int)
    } else {
        rest
    }
}

/// The modes when an OSC ends: `0;title` and `2;title` set the title.
pub open spec fn end_osc(m: ModesView, body: Seq<u8>) -> ModesView {
    if body.len() >= 2 && (body[0] == 0x30 || body[0] == 0x32) && body[1] == 0x3B {
        ModesView { title: Some(lossy_text(title_bytes(body.skip(2)))), ..m }
    } else {
        m
    }
}

/// C0 controls that are executed inside an escape sequence, and DEL.
pub open spec fn is_executed(b: u8) -> bool {
    b <= 0x17 || b == 0x19 || (0x1C <= b <= 0x1F) || b == 0x7F
}

pub open spec fn at(position: Position, modes: ModesView) -> TrackerView {
    TrackerView { position, modes }
}

/// The tracker after the byte that follows ESC.
pub open spec fn after_esc(m: ModesView, b: u8) -> TrackerView {
    if b == 0x5B {
        at(
            Position::Csi {
                private: false,
                params: Seq::empty(),
                current: 0,
                has_current: false,
            },
            m,
        )
    } else if b == 0x5D {
        at(Position::Osc { body: Seq::empty() }, m)
    } else if b == 0x3D {
        at(Position::Ground, ModesView { app_keypad: true, ..m })
    } else if b == 0x3E {
        at(Position::Ground, ModesView { app_keypad: false, ..m })
    } else if b == 0x63 {
        at(Position::Ground, default_modes())
    } else if b == 0x1B || is_executed(b) {
        at(Position::Esc, m)
    } else if b == 0x50 || b == 0x58 || b == 0x5E || b == 0x5F {
        at(Position::Str, m)
    } else if 0x20 <= b <= 0x2F {
        at(Position::EscIntermediate, m)
    } else {
        at(Position::Ground, m)
    }
}

/// The tracker after one byte inside a CSI sequence.
pub open spec fn after_csi(
    m: ModesView,
    private: bool,
    params: Seq<u16>,
    current: u16,
    has_current: bool,
    b: u8,
) -> TrackerView {
    if b == 0x3F && !has_current && params.len() == 0 {
        at(Position::Csi { private: true, params, current, has_current }, m)
    } else if 0x30 <= b <= 0x39 {
        at(
            Position::Csi {
                private,
                params,
                current: append_digit(current, (b - 0x30) as u8),
                has_current: true,
            },
            m,
        )
    } else if b == 0x3B {
        at(
            Position::Csi {
                private,
                params: end_param(params, current, has_current),
                current: 0,
                has_current: false,
            },
            m,
        )
    } else if 0x40 <= b <= 0x7E {
        at(
            Position::Ground,
            if private && (b == 0x68 || b == 0x6C) {
                apply_params(m, end_param(params, current, has_current), b == 0x68)
            } else {
                m
            },
        )
    } else if b == 0x18 || b == 0x1A {
        at(Position::Ground, m)
    } else if b == 0x1B {
        at(Position::Esc, m)
    } else {
        at(Position::Csi { private, params, current, has_current }, m)
    }
}

/// The tracker after one more byte.
pub open spec fn step(t: TrackerView, b: u8) -> TrackerView {
    match t.position {
        Position::Ground => if b == 0x1B {
            at(Position::Esc, t.modes)
        } else {
            t
        },
        Position::Esc => after_esc(t.modes, b),
        Position::EscIntermediate => if 0x20 <= b <= 0x2F || is_executed(b) {
            t
        } else {
            at(Position::Ground, t.modes)
        },
        Position::Csi { private, params, current, has_current } => after_csi(
            t.modes,
            private,
            params,
            current,
            has_current,
            b,
        ),
        Position::Osc { body } => if b == 0x07 || b == 0x18 || b == 0x1A {
            at(Position::Ground, end_osc(t.modes, body))
        } else if b == 0x1B {
            at(Position::OscEsc { body }, t.modes)
        } else if b < 0x20 || body.len() >= MAX_OSC {
            t
        } else {
            at(Position::Osc { body: body.push(b) }, t.modes)
        },
        Position::OscEsc { body } => if b == 0x5C {
            at(Position::Ground, end_osc(t.modes, body))
        } else {
            after_esc(end_osc(t.modes, body), b)
        },
        Position::Str => if b == 0x1B {
            at(Position::StrEsc, t.modes)
        } else if b == 0x18 || b == 0x1A {
            at(Position::Ground, t.modes)
        } else {
            t
        },
        Position::StrEsc => if b == 0x5C {
            at(Position::Ground, t.modes)
        } else {
            after_esc(t.modes, b)
        },
    }
}

/// The tracker after a run of bytes.
pub open spec fn run(t: TrackerView, bytes: Seq<u8>) -> TrackerView
    decreases bytes.len(),
{
    if bytes.len() == 0 {
        t
    } else {
        step(run(t, bytes.drop_last()), bytes.last())
    }
}

/// A tracker that has seen nothing.
pub open spec fn fresh() -> TrackerView {
    at(Position::Ground, default_modes())
}

/// `CSI ? mode h` or `CSI ? mode l`.
#[verifier::opaque]
pub open spec fn private_sequence(mode: u16, set: bool) -> Seq<u8> {
    seq![0x1Bu8, 0x5B, 0x3F] + decimal(mode as nat).push(
        if set {
            0x68u8
        } else {
            0x6Cu8
        },
    )
}

/// The reset of a mouse mode that is not wanted.
pub open spec fn mouse_reset(wanted: Seq<u16>, mode: u16) -> Seq<u8> {
    if wanted.contains(mode) {
        Seq::empty()
    } else {
        private_sequence(mode, false)
    }
}

/// The set sequences of the given mouse modes, in order.
pub open spec fn mouse_sets(wanted: Seq<u16>) -> Seq<u8>
    decreases wanted.len(),
{
    if wanted.len() == 0 {
        Seq::empty()
    } else {
        mouse_sets(wanted.drop_last()) + private_sequence(wanted.last(), true)
    }
}

/// `OSC 2 ; title ST`, or nothing without a title.
pub open spec fn title_sequence(title: Option<Seq<char>>) -> Seq<u8> {
    match title {
        Some(chars) => seq![0x1Bu8, 0x5D, 0x32, 0x3B] + encode_utf8(chars) + seq![0x1Bu8, 0x5C],
        None => Seq::empty(),
    }
}

/// A soft reset, then the alternate screen, cursor keys, cursor and autowrap,
/// each in its direction.
pub open spec fn screen_prefix(m: ModesView) -> Seq<u8> {
    seq![0x1Bu8, 0x5B, 0x21, 0x70] + (match m.alt_screen {
        Some(variant) => private_sequence(variant, true),
        None => private_sequence(1049, false),
    }) + private_sequence(1, m.app_cursor_keys) + private_sequence(25, !m.cursor_hidden)
        + private_sequence(7, !m.autowrap_off)
}

/// The resets of all mouse modes that are not wanted.
pub open spec fn mouse_resets(wanted: Seq<u16>) -> Seq<u8> {
    mouse_reset(wanted, 1000) + mouse_reset(wanted, 1002) + mouse_reset(wanted, 1003)
        + mouse_reset(wanted, 1005) + mouse_reset(wanted, 1006) + mouse_reset(wanted, 1015)
}

/// Focus reporting, bracketed paste and keypad, each in its direction, and the
/// title.
pub open spec fn input_prefix(m: ModesView) -> Seq<u8> {
    private_sequence(1004, m.focus_reporting) + private_sequence(2004, m.bracketed_paste) + seq![
        0x1Bu8,
        if m.app_keypad {
            0x3Du8
        } else {
            0x3Eu8
        },
    ] + title_sequence(m.title)
}

/// The sequences that re-establish the modes.
pub open spec fn prefix(m: ModesView) -> Seq<u8> {
    screen_prefix(m) + mouse_resets(m.mouse) + mouse_sets(m.mouse) + input_prefix(m)
}

/// What holds of the modes of every tracker: a known alternate-screen variant,
/// each mouse mode known and listed once, a title without C0 controls.
pub open spec fn modes_wf(m: ModesView) -> bool {
    &&& m.alt_screen matches Some(variant) ==> is_alt_screen_mode(variant)
    &&& m.mouse.no_duplicates()
    &&& forall|i: int| 0 <= i < m.mouse.len() ==> is_mouse_mode(#[trigger] m.mouse[i])
    &&& m.title matches Some(title) ==> free_of_controls(title)
}

#[derive(Clone, Copy, Debug, PartialEq, Eq, Structural)]
enum State {
    Ground,
    Esc,
    /// After an ESC intermediate byte (charset designators): the next final
    /// byte must not be read as an introducer or a reset.
    EscIntermediate,
    Csi,
    Osc,
    OscEsc,
    /// DCS/SOS/PM/APC body, absorbed until ST.
    StrSeq,
    StrEsc,
}

/// The tracker. `modes` holds what has been seen so far.
pub struct ModeTracker {
    state: State,
    private: bool,
    params: Vec<u16>,
    cur_param: u16,
    has_param: bool,
    osc_acc: Vec<u8>,
    pub modes: Modes,
}

impl View for ModeTracker {
    type V = TrackerView;

    closed spec fn view(&self) -> TrackerView {
        at(
            match self.state {
                State::Ground => Position::Ground,
                State::Esc => Position::Esc,
                State::EscIntermediate => Position::EscIntermediate,
                State::Csi => Position::Csi {
                    private: self.private,
                    params: self.params@,
                    current: self.cur_param,
                    has_current: self.has_param,
                },
                State::Osc => Position::Osc { body: self.osc_acc@ },
                State::OscEsc => Position::OscEsc { body: self.osc_acc@ },
                State::StrSeq => Position::Str,
                State::StrEsc => Position::StrEsc,
            },
            self.modes@,
        )
    }
}

/// The elements of `modes` other than `mode`, in order.
fn drop_mode(modes: &Vec<u16>, mode: u16) -> (kept: Vec<u16>)
    ensures
        kept@ == without(modes@, mode),
{
    let mut kept: Vec<u16> = Vec::new();
    let mut i: usize = 0;
    while i < modes.len()
        invariant
            i <= modes.len(),
            kept@ == without(modes@.take(i as int), mode),
        decreases modes.len() - i,
    {
        let m: u16 = modes[i];
        proof {
            let before = modes@.take(i as int);
            let after = modes@.take(i as int + 1);
            assert(after.drop_last() =~= before);
            assert(after.last() == m);
            reveal(Seq::filter);
        }
        if m != mode {
            kept.push(m);
        }
        i = i + 1;
    }
    assert(modes@.take(i as int) =~= modes@);
    kept
}

/// Whether `mode` occurs in `modes`.
fn has_mode(modes: &Vec<u16>, mode: u16) -> (found: bool)
    ensures
        found == modes@.contains(mode),
{
    let mut i: usize = 0;
    while i < modes.len()
        invariant
            i <= modes.len(),
            forall|j: int| 0 <= j < i ==> modes@[j] != mode,
        decreases modes.len() - i,
    {
        if modes[i] == mode {
            return true;
        }
        i = i + 1;
    }
    false
}

impl Modes {
    /// DECSET (`set`) or DECRST of one private mode.
    fn set_private(&mut self, mode: u16, set: bool)
        ensures
            final(self)@ == apply_private(old(self)@, mode, set),
    {
        if mode == 1 {
            self.app_cursor_keys = set;
        } else if mode == 7 {
            self.autowrap_off = !set;
        } else if mode == 25 {
            self.cursor_hidden = !set;
        } else if mode == 47 || mode == 1047 || mode == 1049 {
            if set {
                self.alt_screen = Some(mode);
            } else {
                self.alt_screen = None;
            }
        } else if mode == 1000 || mode == 1002 || mode == 1003 || mode == 1005 || mode == 1006
            || mode == 1015 {
            if set {
                if !has_mode(&self.mouse, mode) {
                    self.mouse.push(mode);
                }
            } else {
                let kept = drop_mode(&self.mouse, mode);
                self.mouse = kept;
            }
        } else if mode == 1004 {
            self.focus_reporting = set;
        } else if mode == 2004 {
            self.bracketed_paste = set;
        }
        assert(self@ =~= apply_private(old(self)@, mode, set));
    }
}

/// What holds of every collected OSC body.
pub open spec fn osc_wf(body: Seq<u8>) -> bool {
    &&& body.len() <= MAX_OSC
    &&& forall|i: int| 0 <= i < body.len() ==> #[trigger] body[i] >= 0x20
}

/// What holds of every tracker.
pub open spec fn tracker_wf(t: TrackerView) -> bool {
    &&& modes_wf(t.modes)
    &&& match t.position {
        Position::Osc { body } => osc_wf(body),
        Position::OscEsc { body } => osc_wf(body),
        Position::Csi { params, .. } => params.len() <= MAX_PARAMS,
        _ => true,
    }
}

/// Dropping a mode keeps the others, each as often and in the same order.
pub(crate) proof fn lemma_without(modes: Seq<u16>, mode: u16)
    ensures
        forall|m: u16| without(modes, mode).contains(m) <==> modes.contains(m) && m != mode,
        modes.no_duplicates() ==> without(modes, mode).no_duplicates(),
    decreases modes.len(),
{
    reveal(Seq::filter);
    if modes.len() > 0 {
        let init = modes.drop_last();
        lemma_without(init, mode);
        assert(modes =~= init.push(modes.last()));
        assert forall|m: u16| #[trigger] modes.contains(m) <==> init.contains(m) || m
            == modes.last() by {
            if init.contains(m) {
                let i = init.index_of(m);
                assert(modes[i] == m);
            }
            if modes.contains(m) && m != modes.last() {
                let i = modes.index_of(m);
                assert(init[i] == m);
            }
            if m == modes.last() {
                assert(modes[modes.len() - 1] == m);
            }
        }
        let rest = without(init, mode);
        if modes.last() != mode {
            let all = without(modes, mode);
            assert(all == rest.push(modes.last()));
            assert forall|m: u16| #[trigger] all.contains(m) <==> rest.contains(m) || m
                == modes.last() by {
                if rest.contains(m) {
                    assert(all[rest.index_of(m)] == m);
                }
                if m == modes.last() {
                    assert(all[all.len() - 1] == m);
                }
            }
            if modes.no_duplicates() {
                assert(!init.contains(modes.last())) by {
                    if init.contains(modes.last()) {
                        let i = init.index_of(modes.last());
                        assert(modes[i] == modes[modes.len() - 1]);
                    }
                }
                assert(init.no_duplicates());
                assert(!rest.contains(modes.last()));
                assert forall|i: int, j: int|
                    0 <= i < all.len() && 0 <= j < all.len() && i != j implies all[i] != all[j] by {
                    if i == all.len() - 1 {
                        assert(rest[j] == all[j]);
                        assert(rest.contains(rest[j]));
                    } else if j == all.len() - 1 {
                        assert(rest[i] == all[i]);
                        assert(rest.contains(rest[i]));
                    } else {
                        assert(rest[i] == all[i] && rest[j] == all[j]);
                    }
                }
            }
        } else {
            assert(modes.no_duplicates() ==> init.no_duplicates());
        }
    }
}

/// Applying a private mode keeps the modes well formed.
proof fn lemma_apply_private_wf(m: ModesView, mode: u16, set: bool)
    requires
        modes_wf(m),
    ensures
        modes_wf(apply_private(m, mode, set)),
{
    let after = apply_private(m, mode, set);
    lemma_without(m.mouse, mode);
    assert forall|i: int| 0 <= i < after.mouse.len() implies is_mouse_mode(
        #[trigger] after.mouse[i],
    ) by {
        assert(after.mouse.contains(after.mouse[i]));
        if m.mouse.contains(after.mouse[i]) {
            let j = m.mouse.index_of(after.mouse[i]);
            assert(is_mouse_mode(m.mouse[j]));
        }
    }
}

proof fn lemma_apply_params_wf(m: ModesView, params: Seq<u16>, set: bool)
    requires
        modes_wf(m),
    ensures
        modes_wf(apply_params(m, params, set)),
    decreases params.len(),
{
    if params.len() > 0 {
        lemma_apply_params_wf(m, params.drop_last(), set);
        lemma_apply_private_wf(
            apply_params(m, params.drop_last(), set),
            params.last(),
            set,
        );
    }
}

impl ModeTracker {
    /// Whether two trackers stand at the same place in the same sequence.
    pub closed spec fn stands_like(&self, other: &ModeTracker) -> bool {
        &&& self.state == other.state
        &&& self.private == other.private
        &&& self.params == other.params
        &&& self.cur_param == other.cur_param
        &&& self.has_param == other.has_param
        &&& self.osc_acc == other.osc_acc
    }

    /// DECSET (`set`) or DECRST of one private mode. Where the tracker stands in
    /// a sequence does not change.
    pub fn apply_private_mode(&mut self, mode: u16, set: bool)
        ensures
            final(self)@ == at(old(self)@.position, apply_private(old(self)@.modes, mode, set)),
            final(self).stands_like(old(self)),
            old(self).wf() ==> final(self).wf(),
    {
        self.modes.set_private(mode, set);
        proof {
            if modes_wf(old(self).modes@) {
                lemma_apply_private_wf(old(self).modes@, mode, set);
            }
        }
    }

    /// What every tracker keeps.
    pub open spec fn wf(&self) -> bool {
        tracker_wf(self@)
    }

    /// A tracker that has seen nothing.
    pub fn new() -> (tracker: ModeTracker)
        ensures
            tracker@ == fresh(),
            tracker.wf(),
    {
        ModeTracker {
            state: State::Ground,
            private: false,
            params: Vec::new(),
            cur_param: 0,
            has_param: false,
            osc_acc: Vec::new(),
            modes: Modes::default(),
        }
    }

    /// Whether the bytes seen so far end inside an escape sequence.
    pub fn in_sequence(&self) -> (inside: bool)
        ensures
            inside == !(self@.position is Ground),
    {
        self.state != State::Ground
    }

    /// The modes as of the bytes seen so far.
    pub fn modes(&self) -> (modes: &Modes)
        ensures
            modes@ == self@.modes,
    {
        &self.modes
    }

    /// Follows a run of output.
    pub fn advance(&mut self, bytes: &[u8])
        ensures
            final(self)@ == run(old(self)@, bytes@),
            old(self).wf() ==> final(self).wf(),
    {
        let mut i: usize = 0;
        while i < bytes.len()
            invariant
                i <= bytes.len(),
                self@ == run(old(self)@, bytes@.take(i as int)),
                old(self).wf() ==> self.wf(),
            decreases bytes.len() - i,
        {
            let b: u8 = bytes[i];
            self.step(b);
            proof {
                let after = bytes@.take(i as int + 1);
                assert(after.drop_last() =~= bytes@.take(i as int));
                assert(after.last() == b);
            }
            i = i + 1;
        }
        assert(bytes@.take(i as int) =~= bytes@);
    }

    fn step(&mut self, b: u8)
        ensures
            final(self)@ == step(old(self)@, b),
            old(self).wf() ==> final(self).wf(),
    {
        match self.state {
            State::Ground => {
                if b == 0x1B {
                    self.state = State::Esc;
                }
            },
            State::Esc => self.step_esc(b),
            State::EscIntermediate => {
                if !(0x20 <= b && b <= 0x2F || Self::executed(b)) {
                    self.state = State::Ground;
                }
            },
            State::Csi => self.step_csi(b),
            State::Osc => {
                if b == 0x07 || b == 0x18 || b == 0x1A {
                    // CAN and SUB end the string and still dispatch it.
                    self.dispatch_osc();
                    self.state = State::Ground;
                } else if b == 0x1B {
                    self.state = State::OscEsc;
                } else if b >= 0x20 && self.osc_acc.len() < MAX_OSC {
                    self.osc_acc.push(b);
                    assert(old(self).wf() ==> self.wf());
                }
            },
            State::OscEsc => {
                self.dispatch_osc();
                assert(old(self).wf() ==> modes_wf(self.modes@));
                if b == 0x5C {
                    self.state = State::Ground;
                } else {
                    // The ESC began a fresh escape sequence.
                    self.state = State::Esc;
                    self.step_esc(b);
                }
            },
            State::StrSeq => {
                if b == 0x1B {
                    self.state = State::StrEsc;
                } else if b == 0x18 || b == 0x1A {
                    self.state = State::Ground;
                }
            },
            State::StrEsc => {
                if b == 0x5C {
                    self.state = State::Ground;
                } else {
                    self.state = State::Esc;
                    self.step_esc(b);
                }
            },
        }
    }

    fn executed(b: u8) -> (executed: bool)
        ensures
            executed == is_executed(b),
    {
        b <= 0x17 || b == 0x19 || (0x1C <= b && b <= 0x1F) || b == 0x7F
    }

    fn step_esc(&mut self, b: u8)
        requires
            old(self)@.position is Esc,
        ensures
            final(self)@ == after_esc(old(self)@.modes, b),
            modes_wf(old(self)@.modes) ==> final(self).wf(),
    {
        if b == 0x5B {
            self.state = State::Csi;
            self.private = false;
            self.params.clear();
            self.cur_param = 0;
            self.has_param = false;
        } else if b == 0x5D {
            self.state = State::Osc;
            self.osc_acc.clear();
        } else if b == 0x3D {
            self.modes.app_keypad = true;
            self.state = State::Ground;
        } else if b == 0x3E {
            self.modes.app_keypad = false;
            self.state = State::Ground;
        } else if b == 0x63 {
            self.modes = Modes::default();
            self.state = State::Ground;
        } else if b == 0x1B || Self::executed(b) {
        } else if b == 0x50 || b == 0x58 || b == 0x5E || b == 0x5F {
            self.state = State::StrSeq;
        } else if 0x20 <= b && b <= 0x2F {
            self.state = State::EscIntermediate;
        } else {
            self.state = State::Ground;
        }
    }

    fn step_csi(&mut self, b: u8)
        requires
            old(self)@.position is Csi,
        ensures
            final(self)@ == step(old(self)@, b),
            old(self).wf() ==> final(self).wf(),
    {
        if b == 0x3F && !self.has_param && self.params.len() == 0 {
            self.private = true;
        } else if 0x30 <= b && b <= 0x39 {
            self.has_param = true;
            let value: u32 = self.cur_param as u32 * 10 + (b - 0x30) as u32;
            self.cur_param = if value > 0xFFFF {
                0xFFFF
            } else {
                value as u16
            };
        } else if b == 0x3B {
            self.push_param();
        } else if 0x40 <= b && b <= 0x7E {
            self.push_param();
            self.dispatch_csi(b);
            self.state = State::Ground;
        } else if b == 0x18 || b == 0x1A {
            self.state = State::Ground;
        } else if b == 0x1B {
            self.state = State::Esc;
        }
    }

    fn push_param(&mut self)
        ensures
            final(self).params@ == end_param(old(self).params@, old(self).cur_param, old(self).has_param),
            final(self).cur_param == 0,
            !final(self).has_param,
            final(self).state == old(self).state,
            final(self).private == old(self).private,
            final(self).osc_acc == old(self).osc_acc,
            final(self).modes == old(self).modes,
    {
        if self.has_param && self.params.len() < MAX_PARAMS {
            self.params.push(self.cur_param);
        }
        self.cur_param = 0;
        self.has_param = false;
    }

    fn dispatch_csi(&mut self, final_byte: u8)
        ensures
            final(self).modes@ == if old(self).private && (final_byte == 0x68 || final_byte == 0x6C) {
                apply_params(old(self).modes@, old(self).params@, final_byte == 0x68)
            } else {
                old(self).modes@
            },
            modes_wf(old(self).modes@) ==> modes_wf(final(self).modes@),
    {
        if !self.private || (final_byte != 0x68 && final_byte != 0x6C) {
            return ;
        }
        let set = final_byte == 0x68;
        let mut i: usize = 0;
        while i < self.params.len()
            invariant
                i <= self.params.len(),
                self.stands_like(old(self)),
                self.params == old(self).params,
                self.modes@ == apply_params(old(self).modes@, self.params@.take(i as int), set),
            decreases self.params.len() - i,
        {
            let mode: u16 = self.params[i];
            self.apply_private_mode(mode, set);
            proof {
                let after = self.params@.take(i as int + 1);
                assert(after.drop_last() =~= self.params@.take(i as int));
                assert(after.last() == mode);
            }
            i = i + 1;
        }
        proof {
            assert(self.params@.take(i as int) =~= self.params@);
            if modes_wf(old(self).modes@) {
                lemma_apply_params_wf(old(self).modes@, self.params@, set);
            }
        }
    }

    fn dispatch_osc(&mut self)
        ensures
            final(self).modes@ == end_osc(old(self).modes@, old(self).osc_acc@),
            final(self).osc_acc@.len() == 0,
            final(self).state == old(self).state,
            modes_wf(old(self).modes@) && osc_wf(old(self).osc_acc@) ==> modes_wf(
                final(self).modes@,
            ),
    {
        let body = &self.osc_acc;
        if body.len() >= 2 && (body[0] == 0x30 || body[0] == 0x32) && body[1] == 0x3B {
            let end: usize = if body.len() - 2 > MAX_TITLE {
                MAX_TITLE + 2
            } else {
                body.len()
            };
            let kept = vstd::slice::slice_subrange(body.as_slice(), 2, end);
            let title = from_utf8_lossy(kept);
            proof {
                assert(kept@ =~= title_bytes(body@.skip(2)));
                if osc_wf(body@) {
                    assert forall|i: int| 0 <= i < title@.len() implies #[trigger] title@[i] as int
                        >= 0x20 by {
                        if (title@[i] as int) < 0x80 {
                            let j = choose|j: int|
                                0 <= j < kept@.len() && #[trigger] kept@[j] == title@[i] as int;
                            assert(kept@[j] == body@[j + 2]);
                        }
                    }
                }
            }
            self.modes.title = Some(title);
        }
        self.osc_acc.clear();
        assert(self.modes@ =~= end_osc(old(self).modes@, old(self).osc_acc@));
    }
}

/// Appends `CSI ? mode h` or `CSI ? mode l`.
pub(crate) fn push_private(out: &mut Vec<u8>, mode: u16, set: bool)
    ensures
        final(out)@ == old(out)@ + private_sequence(mode, set),
{
    out.push(0x1B);
    out.push(0x5B);
    out.push(0x3F);
    push_decimal(out, mode as u64);
    out.push(
        if set {
            0x68
        } else {
            0x6C
        },
    );
    proof {
        reveal(private_sequence);
        assert(out@ =~= old(out)@ + private_sequence(mode, set));
    }
}

/// Appends the reset of a mouse mode that is not wanted.
fn push_mouse_reset(out: &mut Vec<u8>, wanted: &Vec<u16>, mode: u16)
    ensures
        final(out)@ == old(out)@ + mouse_reset(wanted@, mode),
{
    if !has_mode(wanted, mode) {
        push_private(out, mode, false);
    }
    assert(out@ =~= old(out)@ + mouse_reset(wanted@, mode));
}

impl Modes {
    fn push_screen(&self, out: &mut Vec<u8>)
        ensures
            final(out)@ == old(out)@ + screen_prefix(self@),
    {
        out.push(0x1B);
        out.push(0x5B);
        out.push(0x21);
        out.push(0x70);
        assert(out@ =~= old(out)@ + seq![0x1Bu8, 0x5B, 0x21, 0x70]);
        match self.alt_screen {
            Some(variant) => push_private(out, variant, true),
            None => push_private(out, 1049, false),
        }
        push_private(out, 1, self.app_cursor_keys);
        push_private(out, 25, !self.cursor_hidden);
        push_private(out, 7, !self.autowrap_off);
        assert(out@ =~= old(out)@ + screen_prefix(self@));
    }

    fn push_mouse_resets(&self, out: &mut Vec<u8>)
        ensures
            final(out)@ == old(out)@ + mouse_resets(self@.mouse),
    {
        push_mouse_reset(out, &self.mouse, 1000);
        push_mouse_reset(out, &self.mouse, 1002);
        push_mouse_reset(out, &self.mouse, 1003);
        push_mouse_reset(out, &self.mouse, 1005);
        push_mouse_reset(out, &self.mouse, 1006);
        push_mouse_reset(out, &self.mouse, 1015);
        assert(out@ =~= old(out)@ + mouse_resets(self@.mouse));
    }

    fn push_mouse_sets(&self, out: &mut Vec<u8>)
        ensures
            final(out)@ == old(out)@ + mouse_sets(self@.mouse),
    {
        let mut i: usize = 0;
        assert(out@ =~= old(out)@ + mouse_sets(self.mouse@.take(0)));
        while i < self.mouse.len()
            invariant
                i <= self.mouse.len(),
                out@ == old(out)@ + mouse_sets(self.mouse@.take(i as int)),
            decreases self.mouse.len() - i,
        {
            let mode: u16 = self.mouse[i];
            push_private(out, mode, true);
            proof {
                let after = self.mouse@.take(i as int + 1);
                assert(after.drop_last() =~= self.mouse@.take(i as int));
                assert(after.last() == mode);
                assert(out@ =~= old(out)@ + mouse_sets(after));
            }
            i = i + 1;
        }
        assert(self.mouse@.take(i as int) =~= self.mouse@);
    }

    fn push_input(&self, out: &mut Vec<u8>)
        ensures
            final(out)@ == old(out)@ + input_prefix(self@),
    {
        push_private(out, 1004, self.focus_reporting);
        push_private(out, 2004, self.bracketed_paste);
        out.push(0x1B);
        out.push(
            if self.app_keypad {
                0x3D
            } else {
                0x3E
            },
        );
        match &self.title {
            Some(title) => {
                out.push(0x1B);
                out.push(0x5D);
                out.push(0x32);
                out.push(0x3B);
                out.extend_from_slice(title.as_str().as_bytes());
                out.push(0x1B);
                out.push(0x5C);
            },
            None => {},
        }
        assert(out@ =~= old(out)@ + input_prefix(self@));
    }
}

impl ModeTracker {
    /// Escape sequences that re-establish the tracked modes, emitted before
    /// the ring contents. Every mode is emitted in both directions: a terminal
    /// that ignores the soft reset, or kept modes from an earlier attachment,
    /// still ends up with the tracked ones.
    pub fn replay_prefix(&self) -> (out: Vec<u8>)
        ensures
            out@ == prefix(self@.modes),
    {
        let mut out: Vec<u8> = Vec::new();
        self.modes.push_screen(&mut out);
        self.modes.push_mouse_resets(&mut out);
        self.modes.push_mouse_sets(&mut out);
        self.modes.push_input(&mut out);
        assert(out@ =~= prefix(self@.modes));
        out
    }
}

/// Following two runs of output is following their concatenation: how output
/// is cut into reads does not matter.
pub proof fn law_advance_in_pieces(t: TrackerView, first: Seq<u8>, second: Seq<u8>)
    ensures
        run(t, first + second) == run(run(t, first), second),
    decreases second.len(),
{
    if second.len() == 0 {
        assert(first + second =~= first);
    } else {
        law_advance_in_pieces(t, first, second.drop_last());
        assert((first + second).drop_last() =~= first + second.drop_last());
        assert((first + second).last() == second.last());
    }
}

pub(crate) proof fn lemma_run_push(t: TrackerView, bytes: Seq<u8>, b: u8)
    ensures
        run(t, bytes.push(b)) == step(run(t, bytes), b),
{
    assert(bytes.push(b).drop_last() =~= bytes);
}

pub proof fn lemma_run_2(t: TrackerView, a: u8, b: u8)
    ensures
        run(t, seq![a, b]) == step(step(t, a), b),
{
    lemma_run_push(t, Seq::empty(), a);
    lemma_run_push(t, Seq::empty().push(a), b);
    assert(seq![a, b] =~= Seq::empty().push(a).push(b));
}

pub(crate) proof fn lemma_run_3(t: TrackerView, a: u8, b: u8, c: u8)
    ensures
        run(t, seq![a, b, c]) == step(step(step(t, a), b), c),
{
    lemma_run_2(t, a, b);
    lemma_run_push(t, seq![a, b], c);
    assert(seq![a, b, c] =~= seq![a, b].push(c));
}

pub(crate) proof fn lemma_run_4(t: TrackerView, a: u8, b: u8, c: u8, d: u8)
    ensures
        run(t, seq![a, b, c, d]) == step(step(step(step(t, a), b), c), d),
{
    lemma_run_3(t, a, b, c);
    lemma_run_push(t, seq![a, b, c], d);
    assert(seq![a, b, c, d] =~= seq![a, b, c].push(d));
}

/// The digits of a parameter are read back as its value.
pub(crate) proof fn lemma_run_decimal(m: ModesView, n: nat)
    requires
        n <= 0xFFFF,
    ensures
        run(
            at(
                Position::Csi {
                    private: true,
                    params: Seq::empty(),
                    current: 0,
                    has_current: false,
                },
                m,
            ),
            decimal(n),
        ) == at(
            Position::Csi {
                private: true,
                params: Seq::empty(),
                current: n as u16,
                has_current: true,
            },
            m,
        ),
    decreases n,
{
    let t = at(
        Position::Csi { private: true, params: Seq::empty(), current: 0, has_current: false },
        m,
    );
    if n < 10 {
        lemma_run_push(t, Seq::empty(), (0x30 + n) as u8);
        assert(decimal(n) =~= Seq::empty().push((0x30 + n) as u8));
    } else {
        lemma_run_decimal(m, n / 10);
        lemma_run_push(t, decimal(n / 10), (0x30 + n % 10) as u8);
    }
}

/// A private-mode sequence read at ground applies its mode and is complete.
pub proof fn lemma_run_private(m: ModesView, mode: u16, set: bool)
    ensures
        run(at(Position::Ground, m), private_sequence(mode, set)) == at(
            Position::Ground,
            apply_private(m, mode, set),
        ),
{
    reveal(private_sequence);
    let t = at(Position::Ground, m);
    let intro = seq![0x1Bu8, 0x5B, 0x3F];
    let end = if set {
        0x68u8
    } else {
        0x6Cu8
    };
    lemma_run_3(t, 0x1B, 0x5B, 0x3F);
    lemma_run_decimal(m, mode as nat);
    law_advance_in_pieces(t, intro, decimal(mode as nat));
    lemma_run_push(t, intro + decimal(mode as nat), end);
    assert(private_sequence(mode, set) =~= (intro + decimal(mode as nat)).push(end));
    let params = Seq::<u16>::empty().push(mode);
    assert(params.drop_last() =~= Seq::<u16>::empty());
    reveal_with_fuel(apply_params, 2);
}

proof fn lemma_run_mouse_reset(m: ModesView, wanted: Seq<u16>, mode: u16)
    requires
        is_mouse_mode(mode),
    ensures
        ({
            let after = run(at(Position::Ground, m), mouse_reset(wanted, mode));
            &&& after == at(Position::Ground, ModesView { mouse: after.modes.mouse, ..m })
            &&& forall|x: u16|
                #[trigger] after.modes.mouse.contains(x) <==> m.mouse.contains(x) && (x != mode
                    || wanted.contains(mode))
            &&& m.mouse.len() == 0 ==> after.modes.mouse == m.mouse
        }),
{
    if !wanted.contains(mode) {
        lemma_run_private(m, mode, false);
        lemma_without(m.mouse, mode);
        reveal(Seq::filter);
        assert(m.mouse.len() == 0 ==> without(m.mouse, mode) =~= m.mouse);
    }
}

proof fn lemma_run_mouse_sets(m: ModesView, wanted: Seq<u16>)
    requires
        wanted.no_duplicates(),
        forall|i: int| 0 <= i < wanted.len() ==> is_mouse_mode(#[trigger] wanted[i]),
    ensures
        ({
            let after = run(at(Position::Ground, m), mouse_sets(wanted));
            &&& after == at(Position::Ground, ModesView { mouse: after.modes.mouse, ..m })
            &&& forall|x: u16|
                #[trigger] after.modes.mouse.contains(x) <==> m.mouse.contains(x) || wanted.contains(x)
            &&& m.mouse.len() == 0 ==> after.modes.mouse == wanted
        }),
    decreases wanted.len(),
{
    if wanted.len() == 0 {
        assert(m.mouse.len() == 0 ==> m.mouse =~= wanted);
    } else {
        let init = wanted.drop_last();
        let last = wanted.last();
        assert forall|i: int| 0 <= i < init.len() implies is_mouse_mode(#[trigger] init[i]) by {
            assert(init[i] == wanted[i]);
        }
        lemma_run_mouse_sets(m, init);
        law_advance_in_pieces(
            at(Position::Ground, m),
            mouse_sets(init),
            private_sequence(last, true),
        );
        let mid = run(at(Position::Ground, m), mouse_sets(init)).modes;
        lemma_run_private(mid, last, true);
        let after = apply_private(mid, last, true);
        assert(is_mouse_mode(wanted[wanted.len() - 1]));
        assert(after =~= ModesView { mouse: after.mouse, ..m });
        assert(wanted =~= init.push(last));
        assert forall|x: u16| after.mouse.contains(x) <==> m.mouse.contains(x) || wanted.contains(
            x,
        ) by {
            lemma_push_contains(init, last, x);
            lemma_push_contains(mid.mouse, last, x);
        }
        if m.mouse.len() == 0 {
            assert(!init.contains(last)) by {
                if init.contains(last) {
                    let i = init.index_of(last);
                    assert(wanted[i] == wanted[wanted.len() - 1]);
                }
            }
            assert(after.mouse =~= wanted);
        }
    }
}

pub(crate) proof fn lemma_push_contains(s: Seq<u16>, last: u16, x: u16)
    ensures
        s.push(last).contains(x) <==> s.contains(x) || x == last,
{
    if s.contains(x) {
        assert(s.push(last)[s.index_of(x)] == x);
    }
    if x == last {
        assert(s.push(last)[s.len() as int] == x);
    }
}

/// Title bytes are collected as they stand.
pub(crate) proof fn lemma_run_osc_text(m: ModesView, body: Seq<u8>, bytes: Seq<u8>)
    requires
        forall|i: int| 0 <= i < bytes.len() ==> #[trigger] bytes[i] >= 0x20,
        body.len() + bytes.len() <= MAX_OSC,
    ensures
        run(at(Position::Osc { body }, m), bytes) == at(Position::Osc { body: body + bytes }, m),
    decreases bytes.len(),
{
    if bytes.len() == 0 {
        assert(body + bytes =~= body);
    } else {
        lemma_run_osc_text(m, body, bytes.drop_last());
        assert((body + bytes.drop_last()).push(bytes.last()) =~= body + bytes);
        assert(bytes[bytes.len() - 1] >= 0x20);
    }
}

/// Whether a title survives being sent again: its encoding is not cut.
pub open spec fn title_fits(m: ModesView) -> bool {
    m.title matches Some(title) ==> encode_utf8(title).len() <= MAX_TITLE
}

/// Title bytes are collected as long as there is room.
proof fn lemma_run_osc_any(m: ModesView, body: Seq<u8>, bytes: Seq<u8>)
    requires
        forall|i: int| 0 <= i < bytes.len() ==> #[trigger] bytes[i] >= 0x20,
    ensures
        ({
            let after = run(at(Position::Osc { body }, m), bytes);
            after.position is Osc && after.modes == m
        }),
    decreases bytes.len(),
{
    if bytes.len() > 0 {
        lemma_run_osc_any(m, body, bytes.drop_last());
        assert(bytes[bytes.len() - 1] >= 0x20);
    }
}

/// The title sequence changes the title alone, and to the one that it names
/// where that is not cut.
proof fn lemma_run_title(m: ModesView, title: Option<Seq<char>>)
    requires
        title matches Some(chars) ==> free_of_controls(chars),
    ensures
        ({
            let after = run(at(Position::Ground, m), title_sequence(title));
            &&& after == at(Position::Ground, ModesView { title: after.modes.title, ..m })
            &&& title is None ==> after.modes.title == m.title
            &&& title matches Some(chars) ==> encode_utf8(chars).len() <= MAX_TITLE ==> (
            after.modes.title == title)
        }),
{
    let t = at(Position::Ground, m);
    if let Some(chars) = title {
        let intro = seq![0x1Bu8, 0x5D, 0x32, 0x3B];
        let bytes = encode_utf8(chars);
        let end = seq![0x1Bu8, 0x5C];
        let body = seq![0x32u8, 0x3B];
        lemma_run_4(t, 0x1B, 0x5D, 0x32, 0x3B);
        assert(Seq::<u8>::empty().push(0x32).push(0x3B) =~= body);
        lemma_encoding_free_of_controls(chars);
        law_advance_in_pieces(t, intro, bytes);
        law_advance_in_pieces(t, intro + bytes, end);
        lemma_run_osc_any(m, body, bytes);
        lemma_run_2(run(t, intro + bytes), 0x1B, 0x5C);
        if bytes.len() <= MAX_TITLE {
            lemma_run_osc_text(m, body, bytes);
            assert((body + bytes).skip(2) =~= bytes);
            encode_utf8_valid_utf8(chars);
            encode_utf8_decode_utf8(chars);
        }
    } else {
        assert(run(t, title_sequence(title)) == t);
    }
}

/// The first part of the prefix sets the screen modes.
proof fn lemma_run_screen(before: ModesView, m: ModesView)
    requires
        modes_wf(m),
    ensures
        run(at(Position::Ground, before), screen_prefix(m)) == at(
            Position::Ground,
            ModesView {
                alt_screen: m.alt_screen,
                app_cursor_keys: m.app_cursor_keys,
                cursor_hidden: m.cursor_hidden,
                autowrap_off: m.autowrap_off,
                ..before
            },
        ),
{
    let t0 = at(Position::Ground, before);
    let p1 = seq![0x1Bu8, 0x5B, 0x21, 0x70];
    lemma_run_4(t0, 0x1B, 0x5B, 0x21, 0x70);
    let alt = match m.alt_screen {
        Some(variant) => private_sequence(variant, true),
        None => private_sequence(1049, false),
    };
    law_advance_in_pieces(t0, p1, alt);
    match m.alt_screen {
        Some(variant) => lemma_run_private(before, variant, true),
        None => lemma_run_private(before, 1049, false),
    }
    let p2 = p1 + alt;
    let m2 = ModesView { alt_screen: m.alt_screen, ..before };
    assert(run(t0, p2).modes =~= m2);
    law_advance_in_pieces(t0, p2, private_sequence(1, m.app_cursor_keys));
    lemma_run_private(m2, 1, m.app_cursor_keys);
    let p3 = p2 + private_sequence(1, m.app_cursor_keys);
    let m3 = ModesView { app_cursor_keys: m.app_cursor_keys, ..m2 };
    law_advance_in_pieces(t0, p3, private_sequence(25, !m.cursor_hidden));
    lemma_run_private(m3, 25, !m.cursor_hidden);
    let p4 = p3 + private_sequence(25, !m.cursor_hidden);
    let m4 = ModesView { cursor_hidden: m.cursor_hidden, ..m3 };
    law_advance_in_pieces(t0, p4, private_sequence(7, !m.autowrap_off));
    lemma_run_private(m4, 7, !m.autowrap_off);
}

/// The mouse resets leave of the mouse modes exactly the wanted ones.
pub proof fn lemma_run_mouse_resets(m0: ModesView, wanted: Seq<u16>)
    ensures
        ({
            let after = run(at(Position::Ground, m0), mouse_resets(wanted));
            &&& after == at(Position::Ground, ModesView { mouse: after.modes.mouse, ..m0 })
            &&& forall|x: u16|
                #[trigger] after.modes.mouse.contains(x) <==> m0.mouse.contains(x) && (!is_mouse_mode(x)
                    || wanted.contains(x))
            &&& m0.mouse.len() == 0 ==> after.modes.mouse == m0.mouse
        }),
{
    let t0 = at(Position::Ground, m0);
    let q1 = mouse_reset(wanted, 1000);
    lemma_run_mouse_reset(m0, wanted, 1000);
    let m1 = run(t0, q1).modes;
    let q2 = q1 + mouse_reset(wanted, 1002);
    law_advance_in_pieces(t0, q1, mouse_reset(wanted, 1002));
    lemma_run_mouse_reset(m1, wanted, 1002);
    let m2 = run(t0, q2).modes;
    let q3 = q2 + mouse_reset(wanted, 1003);
    law_advance_in_pieces(t0, q2, mouse_reset(wanted, 1003));
    lemma_run_mouse_reset(m2, wanted, 1003);
    let m3 = run(t0, q3).modes;
    let q4 = q3 + mouse_reset(wanted, 1005);
    law_advance_in_pieces(t0, q3, mouse_reset(wanted, 1005));
    lemma_run_mouse_reset(m3, wanted, 1005);
    let m4 = run(t0, q4).modes;
    let q5 = q4 + mouse_reset(wanted, 1006);
    law_advance_in_pieces(t0, q4, mouse_reset(wanted, 1006));
    lemma_run_mouse_reset(m4, wanted, 1006);
    let m5 = run(t0, q5).modes;
    law_advance_in_pieces(t0, q5, mouse_reset(wanted, 1015));
    lemma_run_mouse_reset(m5, wanted, 1015);
}

/// The last part of the prefix sets the input modes and the title.
proof fn lemma_run_input(before: ModesView, m: ModesView)
    requires
        modes_wf(m),
    ensures
        ({
            let after = run(at(Position::Ground, before), input_prefix(m));
            &&& after == at(
                Position::Ground,
                ModesView {
                    focus_reporting: m.focus_reporting,
                    bracketed_paste: m.bracketed_paste,
                    app_keypad: m.app_keypad,
                    title: after.modes.title,
                    ..before
                },
            )
            &&& m.title is None ==> after.modes.title == before.title
            &&& m.title is Some && title_fits(m) ==> after.modes.title == m.title
        }),
{
    let t0 = at(Position::Ground, before);
    let p1 = private_sequence(1004, m.focus_reporting);
    lemma_run_private(before, 1004, m.focus_reporting);
    let m1 = ModesView { focus_reporting: m.focus_reporting, ..before };
    law_advance_in_pieces(t0, p1, private_sequence(2004, m.bracketed_paste));
    lemma_run_private(m1, 2004, m.bracketed_paste);
    let p2 = p1 + private_sequence(2004, m.bracketed_paste);
    let m2 = ModesView { bracketed_paste: m.bracketed_paste, ..m1 };
    let keypad_byte = if m.app_keypad {
        0x3Du8
    } else {
        0x3Eu8
    };
    let keypad = seq![0x1Bu8, keypad_byte];
    law_advance_in_pieces(t0, p2, keypad);
    lemma_run_2(at(Position::Ground, m2), 0x1B, keypad_byte);
    let p3 = p2 + keypad;
    let m3 = ModesView { app_keypad: m.app_keypad, ..m2 };
    law_advance_in_pieces(t0, p3, title_sequence(m.title));
    lemma_run_title(m3, m.title);
}

/// Replaying the prefix on a terminal at ground, whatever modes it was left in
/// and whatever the title is, re-establishes the tracked modes but for the title
/// and ends at ground. Mouse modes come back as the same set, and in the same
/// order where none was set before. Where no title was tracked the terminal keeps
/// its own.
pub proof fn law_replay_restores_all_but_the_title(before: ModesView, m: ModesView)
    requires
        modes_wf(before),
        modes_wf(m),
    ensures
        ({
            let after = run(at(Position::Ground, before), prefix(m));
            &&& after.position is Ground
            &&& after.modes == ModesView {
                mouse: after.modes.mouse,
                title: after.modes.title,
                ..m
            }
            &&& forall|x: u16| #[trigger] after.modes.mouse.contains(x) <==> m.mouse.contains(x)
            &&& before.mouse.len() == 0 ==> after.modes.mouse == m.mouse
            &&& m.title is None ==> after.modes.title == before.title
        }),
{
    lemma_run_prefix(before, m);
}

proof fn lemma_run_prefix(before: ModesView, m: ModesView)
    requires
        modes_wf(before),
        modes_wf(m),
    ensures
        ({
            let after = run(at(Position::Ground, before), prefix(m));
            &&& after.position is Ground
            &&& after.modes == ModesView {
                mouse: after.modes.mouse,
                title: after.modes.title,
                ..m
            }
            &&& forall|x: u16| #[trigger] after.modes.mouse.contains(x) <==> m.mouse.contains(x)
            &&& before.mouse.len() == 0 ==> after.modes.mouse == m.mouse
            &&& m.title is None ==> after.modes.title == before.title
            &&& m.title is Some && title_fits(m) ==> after.modes.title == m.title
        }),
{
    let t0 = at(Position::Ground, before);
    let p1 = screen_prefix(m);
    lemma_run_screen(before, m);
    let m1 = run(t0, p1).modes;
    assert(run(t0, p1) == at(Position::Ground, m1));
    assert(m1.mouse == before.mouse);
    let p2 = p1 + mouse_resets(m.mouse);
    law_advance_in_pieces(t0, p1, mouse_resets(m.mouse));
    lemma_run_mouse_resets(m1, m.mouse);
    let m2 = run(t0, p2).modes;
    let p3 = p2 + mouse_sets(m.mouse);
    law_advance_in_pieces(t0, p2, mouse_sets(m.mouse));
    lemma_run_mouse_sets(m2, m.mouse);
    let m3 = run(t0, p3).modes;
    assert(run(t0, p2) == at(Position::Ground, m2));
    assert forall|x: u16| m3.mouse.contains(x) <==> m.mouse.contains(x) by {
        assert(m3.mouse.contains(x) <==> m2.mouse.contains(x) || m.mouse.contains(x));
        if m2.mouse.contains(x) {
            assert(before.mouse.contains(x));
            let i = before.mouse.index_of(x);
            assert(is_mouse_mode(before.mouse[i]));
        }
    }
    law_advance_in_pieces(t0, p3, input_prefix(m));
    lemma_run_input(m3, m);
}

/// Replaying the prefix on a terminal at ground, whatever modes it was left in,
/// re-establishes the tracked modes and ends at ground. Mouse modes come back
/// as the same set, and in the same order where none was set before; a title is
/// only replaced by another title.
pub proof fn law_replay_restores(before: ModesView, m: ModesView)
    requires
        modes_wf(before),
        modes_wf(m),
        title_fits(m),
    ensures
        ({
            let after = run(at(Position::Ground, before), prefix(m));
            &&& after.position is Ground
            &&& after.modes == ModesView {
                mouse: after.modes.mouse,
                title: if m.title is Some {
                    m.title
                } else {
                    before.title
                },
                ..m
            }
            &&& forall|x: u16| #[trigger] after.modes.mouse.contains(x) <==> m.mouse.contains(x)
            &&& before.mouse.len() == 0 ==> after.modes.mouse == m.mouse
        }),
{
    lemma_run_prefix(before, m);
}

/// A fresh terminal that reads the prefix has exactly the tracked modes.
pub proof fn law_replay_on_fresh(m: ModesView)
    requires
        modes_wf(m),
        title_fits(m),
    ensures
        run(fresh(), prefix(m)) == at(Position::Ground, m),
{
    law_replay_restores(default_modes(), m);
    assert(run(fresh(), prefix(m)).modes =~= m);
}

/// Attaching mid-stream is as good as having watched from the start: the
/// prefix of a tracker at ground followed by the rest of the output gives a
/// fresh terminal the same state as the whole output.
pub proof fn law_attach_mid_stream(seen: TrackerView, rest: Seq<u8>)
    requires
        seen.position is Ground,
        tracker_wf(seen),
        title_fits(seen.modes),
    ensures
        run(fresh(), prefix(seen.modes) + rest) == run(seen, rest),
{
    law_replay_on_fresh(seen.modes);
    law_advance_in_pieces(fresh(), prefix(seen.modes), rest);
}

/// The modes but for the title.
pub open spec fn untitled_modes(m: ModesView) -> ModesView {
    ModesView { title: None, ..m }
}

/// The tracker but for the title.
pub open spec fn untitled(t: TrackerView) -> TrackerView {
    at(t.position, untitled_modes(t.modes))
}

proof fn lemma_params_untitled(m: ModesView, params: Seq<u16>, set: bool)
    ensures
        untitled_modes(apply_params(m, params, set)) == apply_params(
            untitled_modes(m),
            params,
            set,
        ),
    decreases params.len(),
{
    if params.len() > 0 {
        lemma_params_untitled(m, params.drop_last(), set);
    }
}

proof fn lemma_esc_untitled(a: ModesView, b: ModesView, byte: u8)
    requires
        untitled_modes(a) == untitled_modes(b),
    ensures
        untitled(after_esc(a, byte)) == untitled(after_esc(b, byte)),
{
}

proof fn lemma_csi_untitled(
    a: ModesView,
    b: ModesView,
    private: bool,
    params: Seq<u16>,
    current: u16,
    has_current: bool,
    byte: u8,
)
    requires
        untitled_modes(a) == untitled_modes(b),
    ensures
        untitled(after_csi(a, private, params, current, has_current, byte)) == untitled(
            after_csi(b, private, params, current, has_current, byte),
        ),
{
    let all = end_param(params, current, has_current);
    lemma_params_untitled(a, all, byte == 0x68);
    lemma_params_untitled(b, all, byte == 0x68);
}

proof fn lemma_step_untitled(a: TrackerView, b: TrackerView, byte: u8)
    requires
        untitled(a) == untitled(b),
    ensures
        untitled(step(a, byte)) == untitled(step(b, byte)),
{
    assert(a.position == b.position);
    assert(untitled_modes(a.modes) == untitled_modes(b.modes));
    lemma_esc_untitled(a.modes, b.modes, byte);
    match a.position {
        Position::Csi { private, params, current, has_current } => lemma_csi_untitled(
            a.modes,
            b.modes,
            private,
            params,
            current,
            has_current,
            byte,
        ),
        Position::OscEsc { body } => lemma_esc_untitled(
            end_osc(a.modes, body),
            end_osc(b.modes, body),
            byte,
        ),
        _ => {},
    }
}

/// The title has no bearing on anything else that is tracked.
proof fn lemma_run_untitled(a: TrackerView, b: TrackerView, bytes: Seq<u8>)
    requires
        untitled(a) == untitled(b),
    ensures
        untitled(run(a, bytes)) == untitled(run(b, bytes)),
    decreases bytes.len(),
{
    if bytes.len() > 0 {
        lemma_run_untitled(a, b, bytes.drop_last());
        lemma_step_untitled(run(a, bytes.drop_last()), run(b, bytes.drop_last()), bytes.last());
    }
}

/// Attaching mid-stream is as good as having watched from the start but for the
/// title, whatever that is.
pub proof fn law_attach_mid_stream_but_the_title(seen: TrackerView, rest: Seq<u8>)
    requires
        seen.position is Ground,
        tracker_wf(seen),
    ensures
        untitled(run(fresh(), prefix(seen.modes) + rest)) == untitled(run(seen, rest)),
{
    lemma_run_prefix(default_modes(), seen.modes);
    law_advance_in_pieces(fresh(), prefix(seen.modes), rest);
    lemma_run_untitled(run(fresh(), prefix(seen.modes)), seen, rest);
}

/// Mouse modes are listed once each, in the order in which they were set: setting
/// one that is set changes nothing, another one comes last, a reset takes one out
/// and leaves the others in their order. Other modes do not touch the list, and a
/// mouse mode touches nothing else; saving the cursor changes nothing, nor does a
/// mode that is not tracked.
pub proof fn law_mouse_modes_are_a_list_without_repeats(m: ModesView, mode: u16, set: bool)
    requires
        m.mouse.no_duplicates(),
    ensures
        ({
            let after = apply_private(m, mode, set);
            &&& after.mouse.no_duplicates()
            &&& is_mouse_mode(mode) ==> after == (ModesView { mouse: after.mouse, ..m })
            &&& is_mouse_mode(mode) && set && m.mouse.contains(mode) ==> after.mouse == m.mouse
            &&& is_mouse_mode(mode) && set && !m.mouse.contains(mode) ==> after.mouse
                == m.mouse + seq![mode]
            &&& is_mouse_mode(mode) && !set ==> after.mouse == without(m.mouse, mode)
            &&& forall|x: u16|
                #[trigger] after.mouse.contains(x) <==> if x == mode && is_mouse_mode(mode) {
                    set
                } else {
                    m.mouse.contains(x)
                }
            &&& !is_mouse_mode(mode) ==> after.mouse == m.mouse
            &&& mode == 1048 || !is_tracked(mode) ==> after == m
        }),
{
    let after = apply_private(m, mode, set);
    lemma_without(m.mouse, mode);
    assert(after.mouse.no_duplicates()) by {
        if after.mouse == m.mouse.push(mode) && !m.mouse.contains(mode) {
            assert forall|i: int, j: int|
                0 <= i < after.mouse.len() && 0 <= j < after.mouse.len() && i
                    != j implies after.mouse[i] != after.mouse[j] by {
                assert(i < m.mouse.len() ==> m.mouse.contains(m.mouse[i]));
                assert(j < m.mouse.len() ==> m.mouse.contains(m.mouse[j]));
            }
        }
    }
    assert forall|x: u16| #[trigger]
        after.mouse.contains(x) <==> if x == mode && is_mouse_mode(mode) {
            set
        } else {
            m.mouse.contains(x)
        } by {
        lemma_push_contains(m.mouse, mode, x);
    }
    if is_mouse_mode(mode) && set && !m.mouse.contains(mode) {
        assert(m.mouse.push(mode) =~= m.mouse + seq![mode]);
    }
}

} // verus!
