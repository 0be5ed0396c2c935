//! Bounded replay buffer of raw pty output.
//!
//! Evicted bytes stream through a [`ModeTracker`] exactly once, so the tracker
//! always holds the terminal state as of the ring's oldest byte. Eviction also
//! aligns to escape-sequence boundaries, within a budget, so that a replay does
//! not start inside a sequence.
use crate::modes::{
    fresh, law_advance_in_pieces, law_attach_mid_stream, law_attach_mid_stream_but_the_title, prefix,
    run, step, title_fits, tracker_wf, untitled, ModeTracker, TrackerView,
};
use vstd::prelude::*;

verus! {

/// Ring size where none is configured.
pub const DEFAULT_RING_BYTES: usize = 1024 * 1024;

/// The smallest ring.
pub const MIN_RING_BYTES: usize = 4096;

/// The mathematical value of a [`ReplayRing`].
pub struct RingView {
    pub capacity: nat,
    /// The bytes held, oldest first.
    pub contents: Seq<u8>,
    /// The tracker after everything that was evicted.
    pub baseline: TrackerView,
}

/// The ring without its `n` oldest bytes, which the baseline has followed.
pub open spec fn evicted(r: RingView, n: int) -> RingView {
    RingView {
        contents: r.contents.skip(n),
        baseline: run(r.baseline, r.contents.take(n)),
        ..r
    }
}

/// How many bytes alignment evicts: up to the first sequence boundary, at most
/// all and at most `budget`.
pub open spec fn align_count(baseline: TrackerView, contents: Seq<u8>, budget: nat) -> nat
    decreases budget,
{
    if baseline.position is Ground || contents.len() == 0 || budget == 0 {
        0
    } else {
        1 + align_count(step(baseline, contents[0]), contents.skip(1), (budget - 1) as nat)
    }
}

/// The ring after alignment with a budget of a quarter of its capacity.
pub open spec fn aligned(r: RingView) -> RingView {
    evicted(r, align_count(r.baseline, r.contents, r.capacity / 4) as int)
}

/// The ring after a push: what exceeds the capacity is evicted from the old
/// end, and a full ring is aligned.
pub open spec fn pushed(r: RingView, data: Seq<u8>) -> RingView {
    let all = RingView { contents: r.contents + data, ..r };
    let kept = if all.contents.len() > r.capacity {
        evicted(all, all.contents.len() - r.capacity)
    } else {
        all
    };
    if kept.contents.len() == r.capacity {
        aligned(kept)
    } else {
        kept
    }
}

/// What holds of every ring.
pub open spec fn ring_wf(r: RingView) -> bool {
    &&& r.capacity >= MIN_RING_BYTES
    &&& r.contents.len() <= r.capacity
    &&& tracker_wf(r.baseline)
}

/// The buffer.
pub struct ReplayRing {
    buf: Vec<u8>,
    start: usize,
    len: usize,
    baseline: ModeTracker,
}

/// The buffer slot of the `i`-th byte from `start`.
spec fn slot(capacity: int, start: int, i: int) -> int {
    if start + i < capacity {
        start + i
    } else {
        start + i - capacity
    }
}

spec fn window(buf: Seq<u8>, start: int, len: int) -> Seq<u8> {
    Seq::new(len as nat, |i: int| buf[slot(buf.len() as int, start, i)])
}

impl View for ReplayRing {
    type V = RingView;

    closed spec fn view(&self) -> RingView {
        RingView {
            capacity: self.buf@.len(),
            contents: window(self.buf@, self.start as int, self.len as int),
            baseline: self.baseline@,
        }
    }
}

impl ReplayRing {
    /// What every ring keeps.
    pub closed spec fn wf(&self) -> bool {
        &&& self.start < self.buf@.len()
        &&& self.len <= self.buf@.len()
        &&& self.buf@.len() >= MIN_RING_BYTES
        &&& self.baseline.wf()
    }

    /// Every ring is within its bounds: what the laws ask of one holds of all.
    pub proof fn lemma_bounds(&self)
        requires
            self.wf(),
        ensures
            ring_wf(self@),
    {
    }

    /// An empty ring of at least the smallest size.
    pub fn new(capacity: usize) -> (ring: ReplayRing)
        ensures
            ring.wf(),
            ring@ == (RingView {
                capacity: if capacity < MIN_RING_BYTES {
                    MIN_RING_BYTES as nat
                } else {
                    capacity as nat
                },
                contents: Seq::empty(),
                baseline: fresh(),
            }),
    {
        let size: usize = if capacity < MIN_RING_BYTES {
            MIN_RING_BYTES
        } else {
            capacity
        };
        let buf: Vec<u8> = vec![0u8; size];
        let ring = ReplayRing { buf, start: 0, len: 0, baseline: ModeTracker::new() };
        assert(ring@.contents =~= Seq::empty());
        ring
    }

    /// Bytes held.
    pub fn len(&self) -> (n: usize)
        requires
            self.wf(),
        ensures
            n == self@.contents.len(),
    {
        self.len
    }

    pub fn is_empty(&self) -> (empty: bool)
        requires
            self.wf(),
        ensures
            empty == (self@.contents.len() == 0),
    {
        self.len == 0
    }

    /// Adds output at the new end.
    pub fn push(&mut self, data: &[u8])
        requires
            old(self).wf(),
        ensures
            final(self).wf(),
            final(self)@ == pushed(old(self)@, data@),
    {
        let cap: usize = self.buf.len();
        let ghost before = self@;
        let ghost all = RingView { contents: before.contents + data@, ..before };
        if data.len() >= cap {
            self.keep_tail(data);
        } else if data.len() > cap - self.len {
            let excess: usize = data.len() - (cap - self.len);
            self.evict(excess);
            self.copy_in(data);
            proof {
                assert(all.contents.take(excess as int) =~= before.contents.take(excess as int));
                assert(all.contents.skip(excess as int) =~= before.contents.skip(excess as int)
                    + data@);
            }
        } else {
            self.copy_in(data);
        }
        let ghost kept = if all.contents.len() > cap {
            evicted(all, all.contents.len() - cap)
        } else {
            all
        };
        assert(all.contents.take(0) =~= Seq::<u8>::empty());
        assert(all.contents.skip(0) =~= all.contents);
        assert(self@ == kept);
        assert(kept.contents.len() == self.len);
        if self.len == cap {
            self.align_start();
        }
    }

    /// Replaces the contents by the tail of a write at least as large as the
    /// ring. What comes before the tail still flows through the baseline.
    fn keep_tail(&mut self, data: &[u8])
        requires
            old(self).wf(),
            data@.len() >= old(self).buf@.len(),
        ensures
            final(self).wf(),
            final(self).len == final(self).buf@.len(),
            ({
                let all = RingView { contents: old(self)@.contents + data@, ..old(self)@ };
                final(self)@ == evicted(all, all.contents.len() - all.capacity)
            }),
    {
        let cap: usize = self.buf.len();
        let ghost before = self@;
        let held: usize = self.len;
        self.evict(held);
        let cut: usize = data.len() - cap;
        let head = vstd::slice::slice_subrange(data, 0, cut);
        let tail = vstd::slice::slice_subrange(data, cut, data.len());
        let ghost emptied = self@;
        self.baseline.advance(head);
        assert(self@ == RingView { baseline: run(emptied.baseline, head@), ..emptied });
        self.copy_in(tail);
        proof {
            let all = RingView { contents: before.contents + data@, ..before };
            law_advance_in_pieces(before.baseline, before.contents, head@);
            assert(before.contents.take(held as int) =~= before.contents);
            assert(all.contents.take(all.contents.len() - cap) =~= before.contents + head@);
            assert(all.contents.skip(all.contents.len() - cap) =~= tail@);
            assert(before.contents.skip(held as int) + tail@ =~= tail@);
        }
    }

    fn copy_in(&mut self, data: &[u8])
        requires
            old(self).wf(),
            old(self).len + data@.len() <= old(self).buf@.len(),
        ensures
            final(self).wf(),
            final(self).len == old(self).len + data@.len(),
            final(self)@ == (RingView { contents: old(self)@.contents + data@, ..old(self)@ }),
    {
        let cap: usize = self.buf.len();
        let mut i: usize = 0;
        assert(self@.contents =~= old(self)@.contents + data@.take(0));
        while i < data.len()
            invariant
                i <= data.len(),
                cap == self.buf@.len(),
                self.wf(),
                self.len == old(self).len + i,
                old(self).len + data@.len() <= cap,
                self@ == (RingView {
                    contents: old(self)@.contents + data@.take(i as int),
                    ..old(self)@
                }),
            decreases data.len() - i,
        {
            let ghost held = self@.contents;
            let room: usize = cap - self.start;
            let at: usize = if self.len < room {
                self.start + self.len
            } else {
                self.len - room
            };
            let b: u8 = data[i];
            self.buf.set(at, b);
            self.len = self.len + 1;
            proof {
                assert(self@.contents =~= held.push(b));
                assert(data@.take(i as int + 1) =~= data@.take(i as int).push(b));
                assert(held.push(b) =~= old(self)@.contents + data@.take(i as int + 1));
            }
            i = i + 1;
        }
        assert(data@.take(i as int) =~= data@);
    }

    /// Drops the `n` oldest bytes, feeding them through the baseline.
    fn evict(&mut self, n: usize)
        requires
            old(self).wf(),
            n <= old(self).len,
        ensures
            final(self).wf(),
            final(self)@ == evicted(old(self)@, n as int),
            final(self).len == old(self).len - n,
    {
        let cap: usize = self.buf.len();
        let ghost before = self@;
        let room: usize = cap - self.start;
        let first: usize = if room < n {
            room
        } else {
            n
        };
        let head = vstd::slice::slice_subrange(
            self.buf.as_slice(),
            self.start,
            self.start + first,
        );
        let ghost head_bytes = head@;
        self.baseline.advance(head);
        let wrapped = vstd::slice::slice_subrange(self.buf.as_slice(), 0, n - first);
        let ghost wrapped_bytes = wrapped@;
        self.baseline.advance(wrapped);
        proof {
            law_advance_in_pieces(before.baseline, head_bytes, wrapped_bytes);
            assert(head_bytes + wrapped_bytes =~= before.contents.take(n as int));
        }
        self.start = if n < room {
            self.start + n
        } else {
            n - room
        };
        self.len = self.len - n;
        assert(self@.contents =~= before.contents.skip(n as int));
    }

    /// Evicts to the next sequence boundary. A string sequence can exceed the
    /// whole ring, so the scan stops after a quarter of the capacity and a
    /// start inside a sequence is accepted then.
    fn align_start(&mut self)
        requires
            old(self).wf(),
        ensures
            final(self).wf(),
            final(self)@ == aligned(old(self)@),
    {
        let budget: usize = self.buf.len() / 4;
        let mut scanned: usize = 0;
        let ghost before = self@;
        let ghost total = align_count(before.baseline, before.contents, budget as nat);
        assert(before.contents.take(0) =~= Seq::<u8>::empty());
        assert(before.contents.skip(0) =~= before.contents);
        while self.baseline.in_sequence() && self.len > 0 && scanned < budget
            invariant
                self.wf(),
                scanned <= budget,
                scanned <= before.contents.len(),
                budget == before.capacity / 4,
                self@ == evicted(before, scanned as int),
                self.len == before.contents.len() - scanned,
                total == scanned + align_count(
                    self@.baseline,
                    self@.contents,
                    (budget - scanned) as nat,
                ),
            decreases budget - scanned,
        {
            let ghost mid = self@;
            self.evict(1);
            proof {
                let n = scanned as int;
                assert(mid.contents.take(1) =~= Seq::<u8>::empty().push(mid.contents[0]));
                assert(Seq::<u8>::empty().push(mid.contents[0]).drop_last() =~= Seq::<u8>::empty());
                reveal_with_fuel(run, 2);
                assert(run(mid.baseline, mid.contents.take(1)) == step(
                    mid.baseline,
                    mid.contents[0],
                ));
                law_advance_in_pieces(
                    before.baseline,
                    before.contents.take(n),
                    mid.contents.take(1),
                );
                assert(before.contents.take(n + 1) =~= before.contents.take(n)
                    + mid.contents.take(1));
                assert(mid.contents.skip(1) =~= before.contents.skip(n + 1));
            }
            scanned = scanned + 1;
        }
    }

    /// The synthesized modes, then the ring contents.
    pub fn replay(&self) -> (out: Vec<u8>)
        requires
            self.wf(),
        ensures
            out@ == replay_of(self@),
    {
        let mut out = self.baseline.replay_prefix();
        let ghost modes = out@;
        let room: usize = self.buf.len() - self.start;
        let first: usize = if room < self.len {
            room
        } else {
            self.len
        };
        out.extend_from_slice(
            vstd::slice::slice_subrange(self.buf.as_slice(), self.start, self.start + first),
        );
        out.extend_from_slice(
            vstd::slice::slice_subrange(self.buf.as_slice(), 0, self.len - first),
        );
        assert(out@ =~= modes + self@.contents);
        out
    }
}

/// What a client that attaches is sent.
pub open spec fn replay_of(r: RingView) -> Seq<u8> {
    prefix(r.baseline.modes) + r.contents
}

/// Whether the ring holds a suffix of `history` and its baseline is the tracker
/// after exactly the bytes before that suffix.
pub open spec fn holds_history(r: RingView, history: Seq<u8>) -> bool {
    &&& r.contents.len() <= history.len()
    &&& r.contents == history.skip(history.len() - r.contents.len())
    &&& r.baseline == run(fresh(), history.take(history.len() - r.contents.len()))
}

proof fn lemma_evicted_history(r: RingView, history: Seq<u8>, n: int)
    requires
        holds_history(r, history),
        0 <= n <= r.contents.len(),
    ensures
        holds_history(evicted(r, n), history),
{
    let gone = history.len() - r.contents.len();
    law_advance_in_pieces(fresh(), history.take(gone), r.contents.take(n));
    assert(history.take(gone) + r.contents.take(n) =~= history.take(gone + n));
    assert(r.contents.skip(n) =~= history.skip(gone + n));
}

proof fn lemma_align_count_bound(baseline: TrackerView, contents: Seq<u8>, budget: nat)
    ensures
        align_count(baseline, contents, budget) <= contents.len(),
        align_count(baseline, contents, budget) <= budget,
    decreases budget,
{
    if !(baseline.position is Ground || contents.len() == 0 || budget == 0) {
        lemma_align_count_bound(
            step(baseline, contents[0]),
            contents.skip(1),
            (budget - 1) as nat,
        );
    }
}

/// Every byte pushed is either still held, in order, or has been followed by
/// the baseline exactly once: pushing keeps the ring true to the whole history.
pub proof fn law_push_keeps_history(r: RingView, history: Seq<u8>, data: Seq<u8>)
    requires
        holds_history(r, history),
    ensures
        holds_history(pushed(r, data), history + data),
{
    let all = RingView { contents: r.contents + data, ..r };
    let whole = history + data;
    let gone = history.len() - r.contents.len();
    assert(whole.skip(gone) =~= all.contents);
    assert(whole.take(gone) =~= history.take(gone));
    let kept = if all.contents.len() > r.capacity {
        lemma_evicted_history(all, whole, all.contents.len() - r.capacity);
        evicted(all, all.contents.len() - r.capacity)
    } else {
        all
    };
    if kept.contents.len() == r.capacity {
        lemma_align_count_bound(kept.baseline, kept.contents, r.capacity / 4);
        lemma_evicted_history(
            kept,
            whole,
            align_count(kept.baseline, kept.contents, r.capacity / 4) as int,
        );
    }
}

/// A push never exceeds the capacity, and keeps all of the newest bytes up to
/// three quarters of it.
pub proof fn law_push_bounds(r: RingView, data: Seq<u8>)
    requires
        ring_wf(r),
    ensures
        pushed(r, data).capacity == r.capacity,
        pushed(r, data).contents.len() <= r.capacity,
        r.contents.len() + data.len() < r.capacity ==> pushed(r, data).contents == r.contents
            + data,
        r.contents.len() + data.len() >= r.capacity ==> pushed(r, data).contents.len()
            >= r.capacity - r.capacity / 4,
{
    let all = RingView { contents: r.contents + data, ..r };
    let kept = if all.contents.len() > r.capacity {
        evicted(all, all.contents.len() - r.capacity)
    } else {
        all
    };
    lemma_align_count_bound(kept.baseline, kept.contents, r.capacity / 4);
}

/// After alignment the ring starts on a sequence boundary, or it is empty, or
/// the whole budget was spent on a sequence longer than that.
pub proof fn law_alignment(r: RingView)
    ensures
        ({
            let after = aligned(r);
            ||| after.baseline.position is Ground
            ||| after.contents.len() == 0
            ||| r.contents.len() - after.contents.len() == r.capacity / 4
        }),
{
    lemma_alignment(r, r.capacity / 4);
}

proof fn lemma_alignment(r: RingView, budget: nat)
    ensures
        ({
            let n = align_count(r.baseline, r.contents, budget);
            let after = evicted(r, n as int);
            &&& n <= r.contents.len()
            &&& after.contents.len() == r.contents.len() - n
            &&& {
                ||| after.baseline.position is Ground
                ||| after.contents.len() == 0
                ||| n == budget
            }
        }),
    decreases budget,
{
    assert(r.contents.take(0) =~= Seq::<u8>::empty());
    if !(r.baseline.position is Ground || r.contents.len() == 0 || budget == 0) {
        let next = RingView {
            baseline: step(r.baseline, r.contents[0]),
            contents: r.contents.skip(1),
            ..r
        };
        lemma_alignment(next, (budget - 1) as nat);
        let k = align_count(next.baseline, next.contents, (budget - 1) as nat) as int;
        let one = r.contents.take(1);
        assert(one.drop_last() =~= Seq::<u8>::empty());
        reveal_with_fuel(run, 2);
        assert(run(r.baseline, one) == next.baseline);
        law_advance_in_pieces(r.baseline, one, next.contents.take(k));
        assert(r.contents.take(k + 1) =~= one + next.contents.take(k));
    }
}

/// What attaching gives: a fresh terminal that reads the replay of a ring on a
/// sequence boundary ends in the state it would have from the whole history.
pub proof fn law_replay_equals_history(r: RingView, history: Seq<u8>)
    requires
        ring_wf(r),
        holds_history(r, history),
        r.baseline.position is Ground,
        title_fits(r.baseline.modes),
    ensures
        run(fresh(), replay_of(r)) == run(fresh(), history),
{
    let gone = history.len() - r.contents.len();
    law_attach_mid_stream(r.baseline, r.contents);
    law_advance_in_pieces(fresh(), history.take(gone), r.contents);
    assert(history.take(gone) + r.contents =~= history);
}

/// What attaching gives but for the title, whatever that is.
pub proof fn law_replay_equals_history_but_the_title(r: RingView, history: Seq<u8>)
    requires
        ring_wf(r),
        holds_history(r, history),
        r.baseline.position is Ground,
    ensures
        untitled(run(fresh(), replay_of(r))) == untitled(run(fresh(), history)),
{
    let gone = history.len() - r.contents.len();
    law_attach_mid_stream_but_the_title(r.baseline, r.contents);
    law_advance_in_pieces(fresh(), history.take(gone), r.contents);
    assert(history.take(gone) + r.contents =~= history);
}

} // verus!
