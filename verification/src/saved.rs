//! The windows that were saved to each session file since the program started.
//! A session of several windows is saved as they close, one after the other;
//! each save sees only those still open.
use crate::session::{WindowState, WindowView};
use crate::table::{bound, has_key, lemma_has_key, lookup, unique_keys, Table};
use crate::text::same_bytes;
use vstd::prelude::*;

verus! {

/// What is recorded for a file.
struct FileRecord {
    path: Vec<u8>,
    windows: Table<WindowState>,
    pinned: Vec<u64>,
}

/// The mathematical value of a file's record.
#[verifier::ext_equal]
pub struct RecordView {
    /// The windows by their keys, in the order they were first recorded.
    pub windows: Seq<(u64, WindowView)>,
    /// The keys of windows that stay when the file is made to mirror what is
    /// open.
    pub pinned: Seq<u64>,
}

/// The values of windows by their keys.
pub open spec fn window_values(entries: Seq<(u64, WindowState)>) -> Seq<(u64, WindowView)> {
    Seq::new(entries.len(), |i: int| (entries[i].0, entries[i].1@))
}

impl View for FileRecord {
    type V = RecordView;

    closed spec fn view(&self) -> RecordView {
        RecordView { windows: window_values(self.windows@), pinned: self.pinned@ }
    }
}

/// A record of nothing.
pub open spec fn blank() -> RecordView {
    RecordView { windows: Seq::empty(), pinned: Seq::empty() }
}

/// What was saved to each file.
pub struct SavedWindows {
    files: Vec<FileRecord>,
}

spec fn record_in(files: Seq<FileRecord>, path: Seq<u8>) -> RecordView
    decreases files.len(),
{
    if files.len() == 0 {
        blank()
    } else if files.last().path@ == path {
        files.last()@
    } else {
        record_in(files.drop_last(), path)
    }
}

/// Windows recorded one after the other, each in the place of the one with its
/// key.
pub open spec fn recorded(
    entries: Seq<(u64, WindowView)>,
    more: Seq<(u64, WindowView)>,
) -> Seq<(u64, WindowView)>
    decreases more.len(),
{
    if more.len() == 0 {
        entries
    } else {
        bound(recorded(entries, more.drop_last()), more.last().0, more.last().1)
    }
}

/// The windows but the one with a key.
pub open spec fn others(entries: Seq<(u64, WindowView)>, key: Option<u64>) -> Seq<WindowView>
    decreases entries.len(),
{
    if entries.len() == 0 {
        Seq::empty()
    } else {
        let before = others(entries.drop_last(), key);
        if key == Some(entries.last().0) {
            before
        } else {
            before.push(entries.last().1)
        }
    }
}

/// The windows in the order they are written: the preferred one first.
pub open spec fn written(entries: Seq<(u64, WindowView)>, preferred: Option<u64>) -> Seq<WindowView> {
    match preferred {
        Some(key) => match lookup(entries, key) {
            Some(window) => seq![window] + others(entries, preferred),
            None => others(entries, preferred),
        },
        None => others(entries, preferred),
    }
}

/// The windows that are pinned.
pub open spec fn pinned_only(entries: Seq<(u64, WindowView)>, pinned: Seq<u64>) -> Seq<
    (u64, WindowView),
>
    decreases entries.len(),
{
    if entries.len() == 0 {
        Seq::empty()
    } else {
        let before = pinned_only(entries.drop_last(), pinned);
        if pinned.contains(entries.last().0) {
            before.push(entries.last())
        } else {
            before
        }
    }
}

/// Whether a window of one record is not in another.
pub open spec fn drops(old: Seq<(u64, WindowView)>, new: Seq<(u64, WindowView)>) -> bool {
    exists|i: int| 0 <= i < old.len() && !has_key(new, (#[trigger] old[i]).0)
}

proof fn lemma_values_bound(entries: Seq<(u64, WindowState)>, key: u64, window: WindowState)
    ensures
        window_values(bound(entries, key, window)) == bound(window_values(entries), key, window@),
        has_key(entries, key) == has_key(window_values(entries), key),
{
    lemma_values_lookup(entries, key);
    lemma_values_rebound(entries, key, window);
    assert(window_values(entries.push((key, window))) =~= window_values(entries).push(
        (key, window@),
    ));
}

proof fn lemma_values_rebound(entries: Seq<(u64, WindowState)>, key: u64, window: WindowState)
    ensures
        window_values(crate::table::rebound(entries, key, window)) == crate::table::rebound(
            window_values(entries),
            key,
            window@,
        ),
    decreases entries.len(),
{
    let views = window_values(entries);
    if entries.len() == 0 {
        assert(window_values(crate::table::rebound(entries, key, window)) =~= views);
    } else {
        let init = entries.drop_last();
        assert(window_values(init) =~= views.drop_last());
        lemma_values_rebound(init, key, window);
        if entries.last().0 == key {
            assert(window_values(init.push((key, window))) =~= window_values(init).push(
                (key, window@),
            ));
        } else {
            let rest = crate::table::rebound(init, key, window);
            assert(window_values(rest.push(entries.last())) =~= window_values(rest).push(
                views.last(),
            ));
        }
    }
}

proof fn lemma_values_lookup(entries: Seq<(u64, WindowState)>, key: u64)
    ensures
        match lookup(entries, key) {
            Some(window) => lookup(window_values(entries), key) == Some(window@),
            None => lookup(window_values(entries), key) is None,
        },
    decreases entries.len(),
{
    if entries.len() > 0 {
        let views = window_values(entries);
        assert(window_values(entries.drop_last()) =~= views.drop_last());
        lemma_values_lookup(entries.drop_last(), key);
    }
}

/// Records windows.
fn record_all(windows: &mut Table<WindowState>, captured: Vec<(u64, WindowState)>)
    ensures
        window_values(final(windows)@) == recorded(
            window_values(old(windows)@),
            window_values(captured@),
        ),
{
    let ghost start = window_values(windows@);
    let ghost held = captured@;
    let ghost more = window_values(held);
    assert(more.take(0) =~= Seq::<(u64, WindowView)>::empty());
    for entry in it: captured
        invariant
            it.seq() == held,
            more == window_values(held),
            window_values(windows@) == recorded(start, more.take(it.index() as int)),
    {
        let ghost k = it.index() as int;
        assert(entry == held[k]);
        assert(more[k] == (entry.0, entry.1@));
        assert(more.take(k + 1).drop_last() =~= more.take(k));
        assert(more.take(k + 1).last() == more[k]);
        let (key, window) = entry;
        proof {
            lemma_values_bound(windows@, key, window);
        }
        windows.insert(key, window);
    }
    assert(more.take(more.len() as int) =~= more);
}

/// Copies of the windows in the order they are written.
fn in_order(windows: &Table<WindowState>, preferred: Option<u64>) -> (out: Vec<WindowState>)
    ensures
        crate::session::window_states(out@) == written(window_values(windows@), preferred),
{
    let ghost views = window_values(windows@);
    let mut out: Vec<WindowState> = Vec::new();
    let ghost mut head = Seq::<WindowView>::empty();
    assert(crate::session::window_states(out@) =~= head);
    if let Some(key) = preferred {
        proof {
            lemma_values_lookup(windows@, key);
        }
        if let Some(window) = windows.get(key) {
            out.push(window.duplicate());
            proof {
                head = seq![window@];
                assert(crate::session::window_states(out@) =~= head);
            }
        }
    }
    let mut i: usize = 0;
    assert(views.take(0) =~= Seq::<(u64, WindowView)>::empty());
    assert(head + others(views.take(0), preferred) =~= head);
    while i < windows.entries.len()
        invariant
            i <= windows@.len(),
            views == window_values(windows@),
            crate::session::window_states(out@) == head + others(views.take(i as int), preferred),
        decreases windows.entries.len() - i,
    {
        let ghost before = out@;
        assert(views.take(i + 1).drop_last() =~= views.take(i as int));
        assert(views.take(i + 1).last() == views[i as int]);
        let key: u64 = windows.entries[i].0;
        let skip = match preferred {
            Some(p) => p == key,
            None => false,
        };
        if !skip {
            let window = &windows.entries[i].1;
            out.push(window.duplicate());
            assert(crate::session::window_states(out@) =~= crate::session::window_states(
                before,
            ).push(window@));
        }
        i = i + 1;
        assert(crate::session::window_states(out@) =~= head + others(
            views.take(i as int),
            preferred,
        ));
    }
    assert(views.take(i as int) =~= views);
    assert(head + others(views, preferred) =~= written(views, preferred));
    out
}

impl SavedWindows {
    /// What is recorded for a file; nothing for one that was not saved to.
    pub closed spec fn record(&self, path: Seq<u8>) -> RecordView {
        record_in(self.files@, path)
    }

    pub fn new() -> (saved: SavedWindows)
        ensures
            forall|path: Seq<u8>| #[trigger] saved.record(path) == blank(),
    {
        SavedWindows { files: Vec::new() }
    }

    /// Takes the record of a file out.
    fn take(&mut self, path: &[u8]) -> (record: FileRecord)
        ensures
            record.path@ == path@,
            record@ == old(self).record(path@),
            forall|p: Seq<u8>|
                p != path@ ==> #[trigger] final(self).record(p) == old(self).record(p),
    {
        let mut i: usize = self.files.len();
        assert(self.files@.take(i as int) =~= self.files@);
        while i > 0
            invariant
                i <= self.files@.len(),
                *self == *old(self),
                self.record(path@) == record_in(self.files@.take(i as int), path@),
            decreases i,
        {
            assert(self.files@.take(i as int).drop_last() =~= self.files@.take(i - 1));
            if same_bytes(self.files[i - 1].path.as_slice(), path) {
                let record = self.files.remove(i - 1);
                proof {
                    let before = old(self).files@;
                    assert(before.take(i as int).last() == before[i - 1]);
                    assert forall|p: Seq<u8>| p != path@ implies #[trigger] self.record(p)
                        == old(self).record(p) by {
                        lemma_record_without(before, i - 1, p);
                    }
                }
                return record;
            }
            i = i - 1;
        }
        let mut name: Vec<u8> = Vec::new();
        name.extend_from_slice(path);
        assert(name@ =~= path@);
        let record = FileRecord {
            path: name,
            windows: Table::new(),
            pinned: Vec::new(),
        };
        assert(record@ =~= blank());
        record
    }

    /// Puts the record of a file back.
    fn put(&mut self, record: FileRecord)
        ensures
            forall|p: Seq<u8>| #[trigger]
                final(self).record(p) == if p == record.path@ {
                    record@
                } else {
                    old(self).record(p)
                },
    {
        self.files.push(record);
        assert(self.files@.drop_last() =~= old(self).files@);
    }

    /// Keeps a window when a file is made to mirror what is open, even once it
    /// is closed.
    pub fn pin(&mut self, path: &[u8], key: u64)
        ensures
            forall|p: Seq<u8>| #[trigger]
                final(self).record(p) == if p == path@ {
                    RecordView {
                        pinned: old(self).record(p).pinned.push(key),
                        ..old(self).record(p)
                    }
                } else {
                    old(self).record(p)
                },
    {
        let mut record = self.take(path);
        record.pinned.push(key);
        self.put(record);
    }

    /// Records windows for a file and returns all that are recorded for it, the
    /// preferred one first. Windows that were closed earlier stay.
    pub fn accumulate(
        &mut self,
        path: &[u8],
        captured: Vec<(u64, WindowState)>,
        preferred: Option<u64>,
    ) -> (windows: Vec<WindowState>)
        ensures
            forall|p: Seq<u8>| #[trigger]
                final(self).record(p) == if p == path@ {
                    RecordView {
                        windows: recorded(old(self).record(p).windows, window_values(captured@)),
                        ..old(self).record(p)
                    }
                } else {
                    old(self).record(p)
                },
            crate::session::window_states(windows@) == written(
                recorded(old(self).record(path@).windows, window_values(captured@)),
                preferred,
            ),
    {
        let mut record = self.take(path);
        record_all(&mut record.windows, captured);
        let windows = in_order(&record.windows, preferred);
        self.put(record);
        windows
    }

    /// Makes the record of a file mirror the captured windows, and those that
    /// are pinned unless the pins are dropped. Returns the windows, the
    /// preferred one first, and whether a window that was recorded is gone.
    pub fn replace(
        &mut self,
        path: &[u8],
        captured: Vec<(u64, WindowState)>,
        preferred: Option<u64>,
        keep_pinned: bool,
    ) -> (result: (Vec<WindowState>, bool))
        ensures
            ({
                let before = old(self).record(path@);
                let kept = if keep_pinned {
                    before.pinned
                } else {
                    Seq::empty()
                };
                let after = recorded(
                    pinned_only(before.windows, kept),
                    window_values(captured@),
                );
                &&& forall|p: Seq<u8>| #[trigger]
                    final(self).record(p) == if p == path@ {
                        RecordView { windows: after, pinned: kept }
                    } else {
                        old(self).record(p)
                    }
                &&& crate::session::window_states(result.0@) == written(after, preferred)
                &&& result.1 == drops(before.windows, after)
            }),
    {
        let mut record = self.take(path);
        let ghost before = record@;
        if !keep_pinned {
            record.pinned = Vec::new();
        }
        let ghost kept = if keep_pinned {
            before.pinned
        } else {
            Seq::empty()
        };
        assert(record.pinned@ =~= kept);
        let mut old_keys: Vec<u64> = Vec::new();
        let mut pinned_windows: Vec<(u64, WindowState)> = Vec::new();
        let ghost held = record.windows@;
        let ghost views = window_values(held);
        assert(views.take(0) =~= Seq::<(u64, WindowView)>::empty());
        assert(window_values(pinned_windows@) =~= pinned_only(views.take(0), kept));
        let mut i: usize = 0;
        while i < record.windows.entries.len()
            invariant
                i <= record.windows@.len(),
                record.windows@ == held,
                record.pinned@ == kept,
                record.path@ == path@,
                views == window_values(held),
                old_keys@.len() == i,
                forall|j: int| 0 <= j < i ==> #[trigger] old_keys@[j] == views[j].0,
                window_values(pinned_windows@) == pinned_only(views.take(i as int), kept),
            decreases record.windows@.len() - i,
        {
            let ghost so_far = pinned_windows@;
            assert(views.take(i + 1).drop_last() =~= views.take(i as int));
            assert(views.take(i + 1).last() == views[i as int]);
            let key: u64 = record.windows.entries[i].0;
            old_keys.push(key);
            let mut j: usize = 0;
            let mut found = false;
            while j < record.pinned.len()
                invariant
                    j <= record.pinned@.len(),
                    record.pinned@ == kept,
                    found == kept.take(j as int).contains(key),
                decreases record.pinned@.len() - j,
            {
                let pin: u64 = record.pinned[j];
                proof {
                    let next = kept.take(j + 1);
                    assert(next.drop_last() =~= kept.take(j as int));
                    assert(next[j as int] == pin);
                    if found {
                        let k = kept.take(j as int).index_of(key);
                        assert(next[k] == key);
                    }
                    if next.contains(key) && !found {
                        let k = next.index_of(key);
                        if k < j {
                            assert(kept.take(j as int)[k] == key);
                        }
                    }
                }
                if pin == key {
                    found = true;
                }
                j = j + 1;
            }
            assert(kept.take(j as int) =~= kept);
            if found {
                let window = record.windows.entries[i].1.duplicate();
                pinned_windows.push((key, window));
                assert(window_values(pinned_windows@) =~= window_values(so_far).push(
                    views[i as int],
                ));
            }
            i = i + 1;
        }
        assert(views.take(i as int) =~= views);
        let mut fresh: Table<WindowState> = Table { entries: pinned_windows };
        record_all(&mut fresh, captured);
        let ghost after = window_values(fresh@);
        let windows = in_order(&fresh, preferred);
        let mut dropped = false;
        let mut n: usize = 0;
        while n < old_keys.len()
            invariant
                n <= old_keys@.len(),
                old_keys@.len() == views.len(),
                forall|j: int| 0 <= j < views.len() ==> #[trigger] old_keys@[j] == views[j].0,
                after == window_values(fresh@),
                dropped == exists|j: int|
                    0 <= j < n && !has_key(after, (#[trigger] views[j]).0),
            decreases old_keys.len() - n,
        {
            let key: u64 = old_keys[n];
            proof {
                lemma_values_lookup(fresh@, key);
                assert(key == views[n as int].0);
            }
            if !fresh.contains_key(key) {
                dropped = true;
                assert(!has_key(after, views[n as int].0));
            }
            n = n + 1;
        }
        self.put(FileRecord { path: record.path, windows: fresh, pinned: record.pinned });
        (windows, dropped)
    }

    /// Drops what is recorded for a file: a session that was declined must not
    /// come back through a later save.
    pub fn forget(&mut self, path: &[u8])
        ensures
            forall|p: Seq<u8>| #[trigger]
                final(self).record(p) == if p == path@ {
                    blank()
                } else {
                    old(self).record(p)
                },
    {
        let record = self.take(path);
        let empty = FileRecord { path: record.path, windows: Table::new(), pinned: Vec::new() };
        assert(empty@ =~= blank());
        self.put(empty);
    }
}

proof fn lemma_record_without(files: Seq<FileRecord>, i: int, path: Seq<u8>)
    requires
        0 <= i < files.len(),
        files[i].path@ != path,
    ensures
        record_in(files.remove(i), path) == record_in(files, path),
    decreases files.len(),
{
    if i == files.len() - 1 {
        assert(files.remove(i) =~= files.drop_last());
    } else {
        assert(files.remove(i).last() == files.last());
        assert(files.remove(i).drop_last() =~= files.drop_last().remove(i));
        assert(files.drop_last()[i] == files[i]);
        lemma_record_without(files.drop_last(), i, path);
    }
}

/// A window that was recorded stays recorded when others are: a save of those
/// still open never loses one that was closed before.
pub proof fn law_closed_windows_stay(
    entries: Seq<(u64, WindowView)>,
    more: Seq<(u64, WindowView)>,
    key: u64,
)
    requires
        unique_keys(entries),
    ensures
        unique_keys(recorded(entries, more)),
        !has_key(more, key) ==> lookup(recorded(entries, more), key) == lookup(entries, key),
        has_key(more, key) ==> lookup(recorded(entries, more), key) == lookup(more, key),
    decreases more.len(),
{
    if more.len() > 0 {
        law_closed_windows_stay(entries, more.drop_last(), key);
        crate::table::law_bind(
            recorded(entries, more.drop_last()),
            more.last().0,
            more.last().1,
            key,
        );
    }
}

/// A pinned window survives when a file is made to mirror what is open.
pub proof fn law_pinned_windows_survive(
    record: RecordView,
    captured: Seq<(u64, WindowView)>,
    key: u64,
)
    requires
        unique_keys(record.windows),
        record.pinned.contains(key),
        !has_key(captured, key),
    ensures
        lookup(recorded(pinned_only(record.windows, record.pinned), captured), key) == lookup(
            record.windows,
            key,
        ),
{
    lemma_pinned(record.windows, record.pinned, key);
    law_closed_windows_stay(pinned_only(record.windows, record.pinned), captured, key);
}

/// A window that is neither open nor pinned is gone from such a file.
pub proof fn law_a_mirror_drops_the_rest(
    record: RecordView,
    captured: Seq<(u64, WindowView)>,
    key: u64,
)
    requires
        unique_keys(record.windows),
        !record.pinned.contains(key),
        !has_key(captured, key),
    ensures
        !has_key(recorded(pinned_only(record.windows, record.pinned), captured), key),
{
    lemma_pinned(record.windows, record.pinned, key);
    law_closed_windows_stay(pinned_only(record.windows, record.pinned), captured, key);
}

proof fn lemma_pinned(entries: Seq<(u64, WindowView)>, pinned: Seq<u64>, key: u64)
    requires
        unique_keys(entries),
    ensures
        unique_keys(pinned_only(entries, pinned)),
        lookup(pinned_only(entries, pinned), key) == if pinned.contains(key) {
            lookup(entries, key)
        } else {
            None
        },
    decreases entries.len(),
{
    if entries.len() > 0 {
        let init = entries.drop_last();
        assert(unique_keys(init)) by {
            assert forall|a: int, b: int| 0 <= a < b < init.len() implies (#[trigger] init[a]).0
                != (#[trigger] init[b]).0 by {
                assert(init[a] == entries[a] && init[b] == entries[b]);
            }
        }
        lemma_pinned(init, pinned, key);
        let last = entries.last();
        let before = pinned_only(init, pinned);
        if pinned.contains(last.0) {
            lemma_pinned(init, pinned, last.0);
            lemma_has_key(init, last.0);
            lemma_has_key(before, last.0);
            if has_key(init, last.0) {
                let k = choose|k: int| 0 <= k < init.len() && (#[trigger] init[k]).0 == last.0;
                assert(entries[k] == init[k]);
                assert(entries[entries.len() - 1] == last);
            }
            let all = before.push(last);
            assert(all.drop_last() =~= before);
            assert forall|a: int, b: int| 0 <= a < b < all.len() implies (#[trigger] all[a]).0 != (
            #[trigger] all[b]).0 by {
                assert(all[a] == before[a]);
                if b < before.len() {
                    assert(all[b] == before[b]);
                }
            }
        }
    }
}

} // verus!
