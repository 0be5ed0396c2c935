//! A small map from integer keys to values, kept in insertion order.
use vstd::prelude::*;

verus! {

/// The value of a key.
pub open spec fn lookup<V>(entries: Seq<(u64, V)>, key: u64) -> Option<V>
    decreases entries.len(),
{
    if entries.len() == 0 {
        None
    } else if entries.last().0 == key {
        Some(entries.last().1)
    } else {
        lookup(entries.drop_last(), key)
    }
}

/// Whether a key has a value.
pub open spec fn has_key<V>(entries: Seq<(u64, V)>, key: u64) -> bool {
    lookup(entries, key) is Some
}

/// The entries with the value of `key` replaced in its place.
pub open spec fn rebound<V>(entries: Seq<(u64, V)>, key: u64, value: V) -> Seq<(u64, V)>
    decreases entries.len(),
{
    if entries.len() == 0 {
        entries
    } else if entries.last().0 == key {
        entries.drop_last().push((key, value))
    } else {
        rebound(entries.drop_last(), key, value).push(entries.last())
    }
}

/// The entries with `key` bound to `value`: in its place, or at the end where
/// the key is new.
pub open spec fn bound<V>(entries: Seq<(u64, V)>, key: u64, value: V) -> Seq<(u64, V)> {
    if has_key(entries, key) {
        rebound(entries, key, value)
    } else {
        entries.push((key, value))
    }
}

/// The entries without `key`.
pub open spec fn unbound<V>(entries: Seq<(u64, V)>, key: u64) -> Seq<(u64, V)>
    decreases entries.len(),
{
    if entries.len() == 0 {
        entries
    } else if entries.last().0 == key {
        entries.drop_last()
    } else {
        unbound(entries.drop_last(), key).push(entries.last())
    }
}

/// Whether no key occurs twice.
pub open spec fn unique_keys<V>(entries: Seq<(u64, V)>) -> bool {
    forall|i: int, j: int|
        0 <= i < j < entries.len() ==> (#[trigger] entries[i]).0 != (#[trigger] entries[j]).0
}

/// What the definitions mean at the last entry with a key.
pub proof fn lemma_at<V>(entries: Seq<(u64, V)>, key: u64, value: V, i: int)
    requires
        0 <= i < entries.len(),
        entries[i].0 == key,
        forall|j: int| i < j < entries.len() ==> (#[trigger] entries[j]).0 != key,
    ensures
        lookup(entries, key) == Some(entries[i].1),
        rebound(entries, key, value) == entries.update(i, (key, value)),
        unbound(entries, key) == entries.remove(i),
    decreases entries.len(),
{
    let init = entries.drop_last();
    if i == entries.len() - 1 {
        assert(entries.update(i, (key, value)) =~= init.push((key, value)));
        assert(entries.remove(i) =~= init);
    } else {
        assert(entries[entries.len() - 1].0 != key);
        assert forall|j: int| i < j < init.len() implies (#[trigger] init[j]).0 != key by {
            assert(init[j] == entries[j]);
        }
        lemma_at(init, key, value, i);
        assert(entries.update(i, (key, value)) =~= init.update(i, (key, value)).push(
            entries.last(),
        ));
        assert(entries.remove(i) =~= init.remove(i).push(entries.last()));
    }
}

/// What the definitions mean where a key does not occur.
pub proof fn lemma_absent<V>(entries: Seq<(u64, V)>, key: u64)
    requires
        forall|j: int| 0 <= j < entries.len() ==> (#[trigger] entries[j]).0 != key,
    ensures
        lookup(entries, key) is None,
        unbound(entries, key) == entries,
    decreases entries.len(),
{
    if entries.len() > 0 {
        let init = entries.drop_last();
        assert forall|j: int| 0 <= j < init.len() implies (#[trigger] init[j]).0 != key by {
            assert(init[j] == entries[j]);
        }
        assert(entries[entries.len() - 1].0 != key);
        lemma_absent(init, key);
        assert(init.push(entries.last()) =~= entries);
    }
}

/// Where a bound key stands.
pub proof fn lemma_position<V>(entries: Seq<(u64, V)>, key: u64) -> (i: int)
    requires
        has_key(entries, key),
    ensures
        0 <= i < entries.len(),
        entries[i].0 == key,
        lookup(entries, key) == Some(entries[i].1),
        forall|j: int| i < j < entries.len() ==> (#[trigger] entries[j]).0 != key,
    decreases entries.len(),
{
    if entries.last().0 == key {
        entries.len() - 1
    } else {
        let i = lemma_position(entries.drop_last(), key);
        assert forall|j: int| i < j < entries.len() implies (#[trigger] entries[j]).0 != key by {
            if j < entries.len() - 1 {
                assert(entries.drop_last()[j] == entries[j]);
            }
        }
        i
    }
}

/// A key is bound exactly where an entry has it.
pub proof fn lemma_has_key<V>(entries: Seq<(u64, V)>, key: u64)
    ensures
        has_key(entries, key) <==> exists|i: int|
            0 <= i < entries.len() && (#[trigger] entries[i]).0 == key,
{
    if has_key(entries, key) {
        let i = lemma_position(entries, key);
        assert(entries[i].0 == key);
    } else {
        assert forall|i: int| 0 <= i < entries.len() implies (#[trigger] entries[i]).0 != key by {
            lemma_absent_from_none(entries, key);
        }
    }
}

proof fn lemma_absent_from_none<V>(entries: Seq<(u64, V)>, key: u64)
    requires
        lookup(entries, key) is None,
    ensures
        forall|i: int| 0 <= i < entries.len() ==> (#[trigger] entries[i]).0 != key,
    decreases entries.len(),
{
    if entries.len() > 0 {
        let init = entries.drop_last();
        lemma_absent_from_none(init, key);
        assert forall|i: int| 0 <= i < entries.len() implies (#[trigger] entries[i]).0 != key by {
            if i < init.len() {
                assert(init[i] == entries[i]);
            }
        }
    }
}

/// Binding a key: what is read afterwards, and that keys stay unique.
pub proof fn law_bind<V>(entries: Seq<(u64, V)>, key: u64, value: V, other: u64)
    requires
        unique_keys(entries),
    ensures
        unique_keys(bound(entries, key, value)),
        lookup(bound(entries, key, value), other) == if other == key {
            Some(value)
        } else {
            lookup(entries, other)
        },
{
    let after = bound(entries, key, value);
    lemma_has_key(entries, key);
    if has_key(entries, key) {
        let i = lemma_position(entries, key);
        lemma_at(entries, key, value, i);
        assert(after == entries.update(i, (key, value)));
        assert forall|a: int, b: int| 0 <= a < b < after.len() implies (#[trigger] after[a]).0 != (
        #[trigger] after[b]).0 by {
            assert(after[a].0 == entries[a].0 && after[b].0 == entries[b].0);
        }
        lemma_same_keys(entries, after, other, i);
    } else {
        assert(after.drop_last() =~= entries);
        assert forall|a: int, b: int| 0 <= a < b < after.len() implies (#[trigger] after[a]).0 != (
        #[trigger] after[b]).0 by {
            if b < entries.len() {
                assert(after[a] == entries[a] && after[b] == entries[b]);
            } else {
                assert(after[a] == entries[a]);
            }
        }
    }
}

/// Tables that differ only in the value at `i` agree on all other keys.
proof fn lemma_same_keys<V>(a: Seq<(u64, V)>, b: Seq<(u64, V)>, key: u64, i: int)
    requires
        unique_keys(a),
        0 <= i < a.len(),
        b == a.update(i, (a[i].0, b[i].1)),
    ensures
        key != a[i].0 ==> lookup(b, key) == lookup(a, key),
        key == a[i].0 ==> lookup(b, key) == Some(b[i].1),
{
    lemma_has_key(a, key);
    lemma_has_key(b, key);
    assert(forall|j: int| 0 <= j < a.len() ==> (#[trigger] b[j]).0 == a[j].0);
    if key == a[i].0 {
        assert forall|j: int| i < j < b.len() implies (#[trigger] b[j]).0 != key by {
            assert(a[j].0 != a[i].0);
        }
        lemma_at(b, key, b[i].1, i);
    } else if has_key(a, key) {
        let k = lemma_position(a, key);
        assert forall|j: int| k < j < b.len() implies (#[trigger] b[j]).0 != key by {
            assert(a[j].0 != key);
        }
        assert(b[k] == a[k]);
        lemma_at(b, key, b[k].1, k);
    } else {
        assert forall|j: int| 0 <= j < b.len() implies (#[trigger] b[j]).0 != key by {
            assert(a[j].0 != key);
        }
        lemma_absent(b, key);
    }
}

/// Unbinding a key: what is read afterwards, and that keys stay unique.
pub proof fn law_unbind<V>(entries: Seq<(u64, V)>, key: u64, other: u64)
    requires
        unique_keys(entries),
    ensures
        unique_keys(unbound(entries, key)),
        lookup(unbound(entries, key), other) == if other == key {
            None
        } else {
            lookup(entries, other)
        },
    decreases entries.len(),
{
    if entries.len() > 0 {
        let init = entries.drop_last();
        assert(unique_keys(init)) by {
            assert forall|a: int, b: int| 0 <= a < b < init.len() implies (#[trigger] init[a]).0
                != (#[trigger] init[b]).0 by {
                assert(init[a] == entries[a] && init[b] == entries[b]);
            }
        }
        law_unbind(init, key, other);
        if entries.last().0 == key {
            if other == key {
                assert forall|j: int| 0 <= j < init.len() implies (#[trigger] init[j]).0 != key by {
                    assert(entries[j].0 != entries[entries.len() - 1].0);
                }
                lemma_absent(init, key);
            }
        } else {
            let rest = unbound(init, key);
            let after = unbound(entries, key);
            assert(after.drop_last() =~= rest);
            law_unbind(init, key, entries.last().0);
            assert forall|j: int| 0 <= j < init.len() implies (#[trigger] init[j]).0
                != entries.last().0 by {
                assert(entries[j].0 != entries[entries.len() - 1].0);
            }
            lemma_absent(init, entries.last().0);
            lemma_absent_from_none(rest, entries.last().0);
            assert forall|a: int, b: int| 0 <= a < b < after.len() implies (#[trigger] after[a]).0
                != (#[trigger] after[b]).0 by {
                if b < rest.len() {
                    assert(after[a] == rest[a] && after[b] == rest[b]);
                } else {
                    assert(after[a] == rest[a]);
                }
            }
        }
    }
}

/// A map from integer keys to values.
#[derive(Debug, Clone)]
pub struct Table<V> {
    pub entries: Vec<(u64, V)>,
}

impl<V> View for Table<V> {
    type V = Seq<(u64, V)>;

    open spec fn view(&self) -> Seq<(u64, V)> {
        self.entries@
    }
}

impl<V> Table<V> {
    pub fn new() -> (table: Table<V>)
        ensures
            table@ == Seq::<(u64, V)>::empty(),
            unique_keys(table@),
    {
        Table { entries: Vec::new() }
    }

    pub fn len(&self) -> (n: usize)
        ensures
            n == self@.len(),
    {
        self.entries.len()
    }

    pub fn is_empty(&self) -> (empty: bool)
        ensures
            empty == (self@.len() == 0),
    {
        self.entries.len() == 0
    }

    fn find(&self, key: u64) -> (position: Option<usize>)
        ensures
            match position {
                Some(i) => {
                    &&& i < self@.len()
                    &&& self@[i as int].0 == key
                    &&& forall|j: int| i < j < self@.len() ==> (#[trigger] self@[j]).0 != key
                },
                None => forall|j: int| 0 <= j < self@.len() ==> (#[trigger] self@[j]).0 != key,
            },
    {
        let mut i: usize = self.entries.len();
        while i > 0
            invariant
                i <= self@.len(),
                forall|j: int| i <= j < self@.len() ==> (#[trigger] self@[j]).0 != key,
            decreases i,
        {
            i = i - 1;
            if self.entries[i].0 == key {
                return Some(i);
            }
        }
        None
    }

    pub fn contains_key(&self, key: u64) -> (found: bool)
        ensures
            found == has_key(self@, key),
    {
        match self.find(key) {
            Some(i) => {
                proof {
                    lemma_at(self@, key, self@[i as int].1, i as int);
                }
                true
            },
            None => {
                proof {
                    lemma_absent(self@, key);
                }
                false
            },
        }
    }

    pub fn get(&self, key: u64) -> (value: Option<&V>)
        ensures
            match lookup(self@, key) {
                Some(expected) => value matches Some(v) && *v == expected,
                None => value is None,
            },
    {
        match self.find(key) {
            Some(i) => {
                proof {
                    lemma_at(self@, key, self@[i as int].1, i as int);
                }
                Some(&self.entries[i].1)
            },
            None => {
                proof {
                    lemma_absent(self@, key);
                }
                None
            },
        }
    }

    pub fn insert(&mut self, key: u64, value: V)
        ensures
            final(self)@ == bound(old(self)@, key, value),
    {
        match self.find(key) {
            Some(i) => {
                proof {
                    lemma_at(self@, key, value, i as int);
                }
                self.entries.set(i, (key, value));
            },
            None => {
                proof {
                    lemma_absent(self@, key);
                }
                self.entries.push((key, value));
            },
        }
    }

    pub fn remove(&mut self, key: u64) -> (value: Option<V>)
        ensures
            value == lookup(old(self)@, key),
            final(self)@ == unbound(old(self)@, key),
    {
        match self.find(key) {
            Some(i) => {
                proof {
                    lemma_at(self@, key, self@[i as int].1, i as int);
                }
                let entry = self.entries.remove(i);
                Some(entry.1)
            },
            None => {
                proof {
                    lemma_absent(self@, key);
                }
                None
            },
        }
    }
}

} // verus!
