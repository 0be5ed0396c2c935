//! What holds of image book-keeping as a whole: the order of eviction, and that
//! the byte total is always the bytes that are really held.
use crate::graphics::{
    active_candidate, candidate_bytes, candidates, chosen, cleared, deleted, evicted, evicted_all,
    evicted_one, eviction_order, excess, goes_first, image_bytes, inactive_candidate, inserted,
    is_eviction, is_eviction_count, pending_candidates, stored, tracked_bytes, untracked, Candidate,
    CandidateSource, GraphicsView, StoredImage,
};
use crate::table::{
    bound, has_key, law_bind, law_unbind, lemma_at, lookup, rebound, unbound, unique_keys,
};
use vstd::prelude::*;

verus! {

/// Whether the tables of `g` are sound: no key twice, and every pending graphic
/// that is tracked is tracked once, with its size.
pub open spec fn graphics_wf(g: GraphicsView) -> bool {
    &&& unique_keys(g.active.images)
    &&& unique_keys(g.inactive.images)
    &&& unique_keys(g.graphic_bytes)
    &&& unique_keys(g.timestamps)
    &&& forall|i: int, j: int|
        0 <= i < j < g.pending.len() ==> (#[trigger] g.pending[i]).id != (
        #[trigger] g.pending[j]).id
    &&& forall|i: int|
        0 <= i < g.pending.len() && has_key(g.timestamps, (#[trigger] g.pending[i]).id.0)
            ==> lookup(g.graphic_bytes, g.pending[i].id.0) == Some(
            g.pending[i].pixels@.len() as usize,
        )
}

/// The bytes that are really held: tracked atlas graphics and the images of
/// both screens.
pub open spec fn held_bytes(g: GraphicsView) -> int {
    tracked_bytes(g.graphic_bytes) + image_bytes(g.active.images) + image_bytes(g.inactive.images)
}

/// Whether the byte total is exact.
pub open spec fn accounted(g: GraphicsView) -> bool {
    g.total_bytes == held_bytes(g)
}

proof fn lemma_image_bytes_nonneg(images: Seq<(u64, StoredImage)>)
    ensures
        image_bytes(images) >= 0,
    decreases images.len(),
{
    if images.len() > 0 {
        lemma_image_bytes_nonneg(images.drop_last());
    }
}

proof fn lemma_tracked_bytes_nonneg(sizes: Seq<(u64, usize)>)
    ensures
        tracked_bytes(sizes) >= 0,
    decreases sizes.len(),
{
    if sizes.len() > 0 {
        lemma_tracked_bytes_nonneg(sizes.drop_last());
    }
}

/// Bytes without a key.
proof fn lemma_image_bytes_unbound(images: Seq<(u64, StoredImage)>, key: u64)
    ensures
        image_bytes(unbound(images, key)) == image_bytes(images) - match lookup(images, key) {
            Some(image) => image.data.pixels@.len() as int,
            None => 0,
        },
    decreases images.len(),
{
    if images.len() > 0 {
        let init = images.drop_last();
        lemma_image_bytes_unbound(init, key);
        if images.last().0 != key {
            assert(unbound(images, key).drop_last() =~= unbound(init, key));
        }
    }
}

proof fn lemma_tracked_bytes_unbound(sizes: Seq<(u64, usize)>, key: u64)
    ensures
        tracked_bytes(unbound(sizes, key)) == tracked_bytes(sizes) - match lookup(sizes, key) {
            Some(bytes) => bytes as int,
            None => 0,
        },
    decreases sizes.len(),
{
    if sizes.len() > 0 {
        let init = sizes.drop_last();
        lemma_tracked_bytes_unbound(init, key);
        if sizes.last().0 != key {
            assert(unbound(sizes, key).drop_last() =~= unbound(init, key));
        }
    }
}

proof fn lemma_image_bytes_rebound(images: Seq<(u64, StoredImage)>, key: u64, image: StoredImage)
    requires
        has_key(images, key),
    ensures
        image_bytes(rebound(images, key, image)) == image_bytes(images) - lookup(
            images,
            key,
        )->0.data.pixels@.len() + image.data.pixels@.len(),
    decreases images.len(),
{
    let init = images.drop_last();
    if images.last().0 == key {
        assert(rebound(images, key, image).drop_last() =~= init);
    } else {
        lemma_image_bytes_rebound(init, key, image);
        assert(rebound(images, key, image).drop_last() =~= rebound(init, key, image));
    }
}

proof fn lemma_image_bytes_bound(images: Seq<(u64, StoredImage)>, key: u64, image: StoredImage)
    ensures
        image_bytes(bound(images, key, image)) == image_bytes(images) + image.data.pixels@.len()
            - match lookup(images, key) {
            Some(old_image) => old_image.data.pixels@.len() as int,
            None => 0,
        },
{
    if has_key(images, key) {
        lemma_image_bytes_rebound(images, key, image);
    } else {
        assert(images.push((key, image)).drop_last() =~= images);
    }
}

/// Storing an image keeps the byte total exact.
pub proof fn law_store_accounts(
    g: GraphicsView,
    image_id: u32,
    number: Option<u32>,
    image: StoredImage,
)
    requires
        accounted(g),
        graphics_wf(g),
    ensures
        accounted(stored(g, image_id, number, image)),
        graphics_wf(stored(g, image_id, number, image)),
{
    let key = image_id as u64;
    lemma_image_bytes_bound(g.active.images, key, image);
    lemma_image_bytes_nonneg(g.active.images);
    lemma_image_bytes_nonneg(g.inactive.images);
    lemma_tracked_bytes_nonneg(g.graphic_bytes);
    law_bind(g.active.images, key, image, key);
    if let Some(old_image) = lookup(g.active.images, key) {
        lemma_image_bytes_unbound(g.active.images, key);
        lemma_image_bytes_nonneg(unbound(g.active.images, key));
    }
}

proof fn lemma_chosen_bytes(images: Seq<(u64, StoredImage)>, hit: Seq<bool>)
    requires
        hit.len() == images.len(),
    ensures
        image_bytes(chosen(images, hit, true)) + image_bytes(chosen(images, hit, false))
            == image_bytes(images),
    decreases images.len(),
{
    if images.len() > 0 {
        let init = images.drop_last();
        let hits = hit.drop_last();
        lemma_chosen_bytes(init, hits);
        let want = hit.last();
        assert(chosen(images, hit, want).drop_last() =~= chosen(init, hits, want));
    }
}

/// A subset of a table with unique keys has unique keys.
proof fn lemma_chosen_unique(images: Seq<(u64, StoredImage)>, hit: Seq<bool>, want: bool)
    requires
        hit.len() == images.len(),
        unique_keys(images),
    ensures
        unique_keys(chosen(images, hit, want)),
        forall|i: int|
            0 <= i < chosen(images, hit, want).len() ==> images.contains(
                #[trigger] chosen(images, hit, want)[i],
            ),
    decreases images.len(),
{
    if images.len() > 0 {
        let init = images.drop_last();
        assert forall|a: int, b: int| 0 <= a < b < init.len() implies (#[trigger] init[a]).0 != (
        #[trigger] init[b]).0 by {
            assert(init[a] == images[a] && init[b] == images[b]);
        }
        lemma_chosen_unique(init, hit.drop_last(), want);
        let rest = chosen(init, hit.drop_last(), want);
        let all = chosen(images, hit, want);
        assert forall|i: int| 0 <= i < all.len() implies images.contains(#[trigger] all[i]) by {
            if i < rest.len() {
                assert(all[i] == rest[i]);
                let j = init.index_of(rest[i]);
                assert(images[j] == all[i]);
            } else {
                assert(images[images.len() - 1] == all[i]);
            }
        }
        assert forall|a: int, b: int| 0 <= a < b < all.len() implies (#[trigger] all[a]).0 != (
        #[trigger] all[b]).0 by {
            assert(all[a] == rest[a]);
            if b < rest.len() {
                assert(all[b] == rest[b]);
            } else {
                assert(init.contains(rest[a]));
                let j = init.index_of(rest[a]);
                assert(images[j].0 != images[images.len() - 1].0);
            }
        }
    }
}

/// Deleting images keeps the byte total exact.
pub proof fn law_delete_accounts(g: GraphicsView, hit: Seq<bool>)
    requires
        accounted(g),
        graphics_wf(g),
        hit.len() == g.active.images.len(),
    ensures
        accounted(deleted(g, hit)),
        graphics_wf(deleted(g, hit)),
{
    lemma_chosen_bytes(g.active.images, hit);
    lemma_chosen_unique(g.active.images, hit, false);
    lemma_image_bytes_nonneg(chosen(g.active.images, hit, false));
    lemma_image_bytes_nonneg(g.inactive.images);
    lemma_tracked_bytes_nonneg(g.graphic_bytes);
}

/// A full reset leaves the atlas graphics and nothing else.
pub proof fn law_clear_accounts(g: GraphicsView)
    requires
        accounted(g),
        graphics_wf(g),
    ensures
        accounted(cleared(g)),
        graphics_wf(cleared(g)),
        cleared(g).total_bytes == tracked_bytes(g.graphic_bytes),
{
    lemma_image_bytes_nonneg(g.active.images);
    lemma_image_bytes_nonneg(g.inactive.images);
    lemma_tracked_bytes_nonneg(g.graphic_bytes);
}

/// Exchanging the screens changes nothing that is held.
pub proof fn law_swap_accounts(g: GraphicsView)
    requires
        accounted(g),
    ensures
        accounted(GraphicsView { active: g.inactive, inactive: g.active, dirty: true, ..g }),
{
}

/// Forgetting an atlas graphic keeps the byte total exact, and forgetting it
/// again changes nothing.
pub proof fn law_untrack_accounts(g: GraphicsView, id: u64)
    requires
        accounted(g),
        unique_keys(g.graphic_bytes),
    ensures
        accounted(untracked(g, id)),
        untracked(untracked(g, id), id) == untracked(g, id),
{
    lemma_tracked_bytes_unbound(g.graphic_bytes, id);
    lemma_tracked_bytes_nonneg(unbound(g.graphic_bytes, id));
    lemma_image_bytes_nonneg(g.active.images);
    lemma_image_bytes_nonneg(g.inactive.images);
    law_unbind(g.graphic_bytes, id, id);
}

proof fn lemma_inserted(order: Seq<Candidate>, c: Candidate)
    requires
        forall|i: int, j: int|
            0 <= i < j < order.len() ==> goes_first(#[trigger] order[i], #[trigger] order[j]),
    ensures
        inserted(order, c).len() == order.len() + 1,
        inserted(order, c).to_multiset() == order.to_multiset().insert(c),
        forall|i: int, j: int|
            0 <= i < j < inserted(order, c).len() ==> goes_first(
                #[trigger] inserted(order, c)[i],
                #[trigger] inserted(order, c)[j],
            ),
        forall|i: int|
            0 <= i < inserted(order, c).len() ==> #[trigger] inserted(order, c)[i] == c
                || order.contains(inserted(order, c)[i]),
    decreases order.len(),
{
    broadcast use vstd::seq_lib::group_to_multiset_ensures;

    let all = inserted(order, c);
    if order.len() == 0 {
        assert(all =~= order.push(c));
    } else if goes_first(order.last(), c) {
        assert forall|i: int, j: int| 0 <= i < j < all.len() implies goes_first(
            #[trigger] all[i],
            #[trigger] all[j],
        ) by {
            if j == order.len() && i < order.len() - 1 {
                assert(goes_first(order[i], order[order.len() - 1]));
            }
        }
        assert forall|i: int| 0 <= i < all.len() implies #[trigger] all[i] == c || order.contains(
            all[i],
        ) by {
            if i < order.len() {
                assert(all[i] == order[i]);
            }
        }
    } else {
        let init = order.drop_last();
        let last = order.last();
        assert forall|i: int, j: int| 0 <= i < j < init.len() implies goes_first(
            #[trigger] init[i],
            #[trigger] init[j],
        ) by {
            assert(init[i] == order[i] && init[j] == order[j]);
        }
        lemma_inserted(init, c);
        let rest = inserted(init, c);
        assert(order =~= init.push(last));
        assert(all == rest.push(last));
        assert(all.to_multiset() =~= order.to_multiset().insert(c));
        assert forall|i: int| 0 <= i < all.len() implies #[trigger] all[i] == c || order.contains(
            all[i],
        ) by {
            if i < rest.len() {
                assert(all[i] == rest[i]);
                if rest[i] != c {
                    let k = init.index_of(rest[i]);
                    assert(order[k] == rest[i]);
                }
            } else {
                assert(order[order.len() - 1] == last);
            }
        }
        assert forall|i: int, j: int| 0 <= i < j < all.len() implies goes_first(
            #[trigger] all[i],
            #[trigger] all[j],
        ) by {
            assert(all[i] == rest[i]);
            if j < rest.len() {
                assert(all[j] == rest[j]);
            } else if rest[i] != c {
                let k = init.index_of(rest[i]);
                assert(order[k] == rest[i]);
                assert(goes_first(order[k], order[order.len() - 1]));
            }
        }
    }
}

/// The order of eviction has every candidate exactly once, a lower tier before
/// a higher one, and within a tier an older image before a newer one.
pub proof fn law_eviction_order(cands: Seq<Candidate>)
    ensures
        eviction_order(cands).to_multiset() == cands.to_multiset(),
        forall|i: int, j: int|
            0 <= i < j < eviction_order(cands).len() ==> goes_first(
                #[trigger] eviction_order(cands)[i],
                #[trigger] eviction_order(cands)[j],
            ),
        forall|i: int|
            0 <= i < eviction_order(cands).len() ==> cands.contains(
                #[trigger] eviction_order(cands)[i],
            ),
    decreases cands.len(),
{
    broadcast use vstd::seq_lib::group_to_multiset_ensures;

    if cands.len() == 0 {
        assert(eviction_order(cands) =~= cands);
    } else {
        let init = cands.drop_last();
        law_eviction_order(init);
        lemma_inserted(eviction_order(init), cands.last());
        assert(cands =~= init.push(cands.last()));
        assert(eviction_order(cands).to_multiset() =~= cands.to_multiset());
        let order = eviction_order(cands);
        assert forall|i: int| 0 <= i < order.len() implies cands.contains(#[trigger] order[i]) by {
            if order[i] == cands.last() {
                assert(cands[cands.len() - 1] == order[i]);
            } else {
                assert(eviction_order(init).contains(order[i]));
                let k = eviction_order(init).index_of(order[i]);
                assert(init.contains(eviction_order(init)[k]));
                let m = init.index_of(order[i]);
                assert(cands[m] == order[i]);
            }
        }
    }
}

/// Whether `c` stands for something that `g` holds, with its size.
pub open spec fn stands_for(g: GraphicsView, c: Candidate) -> bool {
    match c.source {
        CandidateSource::Pending => lookup(g.graphic_bytes, c.id) == Some(c.bytes),
        CandidateSource::ActiveKitty => lookup(g.active.images, c.id) matches Some(image)
            && image.data.pixels@.len() == c.bytes,
        CandidateSource::InactiveKitty => lookup(g.inactive.images, c.id) matches Some(image)
            && image.data.pixels@.len() == c.bytes,
    }
}

/// Whether two candidates are different images.
pub open spec fn differs(a: Candidate, b: Candidate) -> bool {
    a.source != b.source || a.id != b.id
}

/// Evicting one image frees its bytes and leaves the others.
proof fn lemma_evict_one(g: GraphicsView, c: Candidate, other: Candidate)
    requires
        unique_keys(g.active.images),
        unique_keys(g.inactive.images),
        unique_keys(g.graphic_bytes),
        stands_for(g, c),
    ensures
        unique_keys(evicted_one(g, c).active.images),
        unique_keys(evicted_one(g, c).inactive.images),
        unique_keys(evicted_one(g, c).graphic_bytes),
        held_bytes(evicted_one(g, c)) == held_bytes(g) - c.bytes,
        differs(c, other) && stands_for(g, other) ==> stands_for(evicted_one(g, c), other),
{
    law_unbind(g.active.images, c.id, other.id);
    law_unbind(g.inactive.images, c.id, other.id);
    law_unbind(g.graphic_bytes, c.id, other.id);
    lemma_image_bytes_unbound(g.active.images, c.id);
    lemma_image_bytes_unbound(g.inactive.images, c.id);
    lemma_tracked_bytes_unbound(g.graphic_bytes, c.id);
}

/// Evicting several different images frees the sum of their bytes.
proof fn lemma_evict_all(g: GraphicsView, gone: Seq<Candidate>)
    requires
        unique_keys(g.active.images),
        unique_keys(g.inactive.images),
        unique_keys(g.graphic_bytes),
        forall|i: int| 0 <= i < gone.len() ==> stands_for(g, #[trigger] gone[i]),
        forall|i: int, j: int|
            0 <= i < j < gone.len() ==> differs(#[trigger] gone[i], #[trigger] gone[j]),
    ensures
        unique_keys(evicted_all(g, gone).active.images),
        unique_keys(evicted_all(g, gone).inactive.images),
        unique_keys(evicted_all(g, gone).graphic_bytes),
        held_bytes(evicted_all(g, gone)) == held_bytes(g) - candidate_bytes(gone),
        evicted_all(g, gone).total_bytes == g.total_bytes,
        evicted_all(g, gone).total_limit == g.total_limit,
        forall|c: Candidate|
            stands_for(g, c) && (forall|i: int|
                0 <= i < gone.len() ==> differs(#[trigger] gone[i], c)) ==> #[trigger] stands_for(
                evicted_all(g, gone),
                c,
            ),
    decreases gone.len(),
{
    if gone.len() > 0 {
        let init = gone.drop_last();
        let last = gone.last();
        assert forall|i: int| 0 <= i < init.len() implies stands_for(g, #[trigger] init[i]) by {
            assert(init[i] == gone[i]);
        }
        assert forall|i: int, j: int| 0 <= i < j < init.len() implies differs(
            #[trigger] init[i],
            #[trigger] init[j],
        ) by {
            assert(init[i] == gone[i] && init[j] == gone[j]);
        }
        lemma_evict_all(g, init);
        let mid = evicted_all(g, init);
        assert(stands_for(g, gone[gone.len() - 1]));
        assert forall|i: int| 0 <= i < init.len() implies differs(#[trigger] init[i], last) by {
            assert(init[i] == gone[i]);
            assert(differs(gone[i], gone[gone.len() - 1]));
        }
        assert(stands_for(mid, last));
        lemma_evict_one(mid, last, last);
        assert forall|c: Candidate|
            stands_for(g, c) && (forall|i: int|
                0 <= i < gone.len() ==> differs(#[trigger] gone[i], c)) implies #[trigger] stands_for(
            evicted_all(g, gone),
            c,
        ) by {
            assert forall|i: int| 0 <= i < init.len() implies differs(#[trigger] init[i], c) by {
                assert(init[i] == gone[i]);
            }
            assert(differs(gone[gone.len() - 1], c));
            assert(stands_for(mid, c));
            lemma_evict_one(mid, last, c);
        }
    }
}

/// Pending candidates are tracked with their sizes, each once.
proof fn lemma_pending_candidates(g: GraphicsView, used: Seq<u64>, n: int)
    requires
        graphics_wf(g),
        0 <= n <= g.pending.len(),
    ensures
        ({
            let cands = pending_candidates(g.pending.take(n), g.timestamps, used);
            &&& forall|i: int| 0 <= i < cands.len() ==> stands_for(g, #[trigger] cands[i])
            &&& forall|i: int|
                0 <= i < cands.len() ==> (#[trigger] cands[i]).source == CandidateSource::Pending
                    && exists|k: int| 0 <= k < n && (#[trigger] g.pending[k]).id.0 == cands[i].id
            &&& forall|i: int, j: int|
                0 <= i < j < cands.len() ==> differs(#[trigger] cands[i], #[trigger] cands[j])
        }),
    decreases n,
{
    if n > 0 {
        let head = g.pending.take(n);
        assert(head.drop_last() =~= g.pending.take(n - 1));
        assert(head.last() == g.pending[n - 1]);
        lemma_pending_candidates(g, used, n - 1);
        let rest = pending_candidates(g.pending.take(n - 1), g.timestamps, used);
        let cands = pending_candidates(head, g.timestamps, used);
        assert forall|i: int| 0 <= i < cands.len() implies stands_for(g, #[trigger] cands[i])
            && cands[i].source == CandidateSource::Pending && exists|k: int|
            0 <= k < n && (#[trigger] g.pending[k]).id.0 == cands[i].id by {
            if i < rest.len() {
                assert(cands[i] == rest[i]);
                let k = choose|k: int|
                    0 <= k < n - 1 && (#[trigger] g.pending[k]).id.0 == rest[i].id;
                assert(g.pending[k].id.0 == cands[i].id);
            } else {
                assert(g.pending[n - 1].id.0 == cands[i].id);
                assert(has_key(g.timestamps, g.pending[n - 1].id.0));
            }
        }
        assert forall|i: int, j: int| 0 <= i < j < cands.len() implies differs(
            #[trigger] cands[i],
            #[trigger] cands[j],
        ) by {
            assert(cands[i] == rest[i]);
            if j < rest.len() {
                assert(cands[j] == rest[j]);
            } else {
                let k = choose|k: int|
                    0 <= k < n - 1 && (#[trigger] g.pending[k]).id.0 == rest[i].id;
                assert(g.pending[k].id != g.pending[n - 1].id);
            }
        }
    }
}

/// Every candidate stands for something held, and no two for the same.
proof fn lemma_candidates(g: GraphicsView, used: Seq<u64>)
    requires
        graphics_wf(g),
    ensures
        forall|i: int|
            0 <= i < candidates(g, used).len() ==> stands_for(
                g,
                #[trigger] candidates(g, used)[i],
            ),
        forall|i: int, j: int|
            0 <= i < j < candidates(g, used).len() ==> differs(
                #[trigger] candidates(g, used)[i],
                #[trigger] candidates(g, used)[j],
            ),
{
    let cands = candidates(g, used);
    lemma_pending_candidates(g, used, g.pending.len() as int);
    assert(g.pending.take(g.pending.len() as int) =~= g.pending);
    let pending = pending_candidates(g.pending, g.timestamps, used);
    let a = pending.len() as int;
    let b = a + g.active.images.len();
    assert forall|i: int| 0 <= i < cands.len() implies stands_for(g, #[trigger] cands[i]) && (if i
        < a {
        cands[i] == pending[i]
    } else if i < b {
        cands[i] == active_candidate(g.active.images[i - a], used)
    } else {
        cands[i] == inactive_candidate(g.inactive.images[i - b])
    }) by {
        if i < a {
            assert(cands[i] == pending[i]);
        } else if i < b {
            let e = g.active.images[i - a];
            assert forall|j: int| i - a < j < g.active.images.len() implies (
            #[trigger] g.active.images[j]).0 != e.0 by {}
            lemma_at(g.active.images, e.0, e.1, i - a);
            assert(e.1.data.pixels.len() == e.1.data.pixels@.len());
        } else {
            let e = g.inactive.images[i - b];
            assert forall|j: int| i - b < j < g.inactive.images.len() implies (
            #[trigger] g.inactive.images[j]).0 != e.0 by {}
            lemma_at(g.inactive.images, e.0, e.1, i - b);
            assert(e.1.data.pixels.len() == e.1.data.pixels@.len());
        }
    }
    assert forall|i: int, j: int| 0 <= i < j < cands.len() implies differs(
        #[trigger] cands[i],
        #[trigger] cands[j],
    ) by {
        if j < a {
            assert(differs(pending[i], pending[j]));
        } else if i >= a && j < b {
            assert(g.active.images[i - a].0 != g.active.images[j - a].0);
        } else if i >= b {
            assert(g.inactive.images[i - b].0 != g.inactive.images[j - b].0);
        }
    }
}

/// Putting different images in order keeps them different.
proof fn lemma_order_differs(cands: Seq<Candidate>)
    requires
        forall|i: int, j: int|
            0 <= i < j < cands.len() ==> differs(#[trigger] cands[i], #[trigger] cands[j]),
    ensures
        forall|i: int, j: int|
            0 <= i < j < eviction_order(cands).len() ==> differs(
                #[trigger] eviction_order(cands)[i],
                #[trigger] eviction_order(cands)[j],
            ),
    decreases cands.len(),
{
    if cands.len() > 0 {
        let init = cands.drop_last();
        let c = cands.last();
        assert forall|i: int, j: int| 0 <= i < j < init.len() implies differs(
            #[trigger] init[i],
            #[trigger] init[j],
        ) by {
            assert(init[i] == cands[i] && init[j] == cands[j]);
        }
        lemma_order_differs(init);
        law_eviction_order(init);
        let order = eviction_order(init);
        assert forall|i: int| 0 <= i < order.len() implies differs(#[trigger] order[i], c) by {
            assert(init.contains(order[i]));
            let k = init.index_of(order[i]);
            assert(cands[k] == order[i]);
            assert(differs(cands[k], cands[cands.len() - 1]));
        }
        lemma_inserted_differs(order, c);
    }
}

proof fn lemma_inserted_differs(order: Seq<Candidate>, c: Candidate)
    requires
        forall|i: int, j: int|
            0 <= i < j < order.len() ==> differs(#[trigger] order[i], #[trigger] order[j]),
        forall|i: int| 0 <= i < order.len() ==> differs(#[trigger] order[i], c),
    ensures
        forall|i: int, j: int|
            0 <= i < j < inserted(order, c).len() ==> differs(
                #[trigger] inserted(order, c)[i],
                #[trigger] inserted(order, c)[j],
            ),
        forall|i: int|
            0 <= i < inserted(order, c).len() ==> #[trigger] inserted(order, c)[i] == c
                || order.contains(inserted(order, c)[i]),
    decreases order.len(),
{
    let all = inserted(order, c);
    if order.len() > 0 {
        if goes_first(order.last(), c) {
            assert forall|i: int| 0 <= i < all.len() implies #[trigger] all[i] == c
                || order.contains(all[i]) by {
                if i < order.len() {
                    assert(all[i] == order[i]);
                }
            }
        } else {
            let init = order.drop_last();
            assert forall|i: int, j: int| 0 <= i < j < init.len() implies differs(
                #[trigger] init[i],
                #[trigger] init[j],
            ) by {
                assert(init[i] == order[i] && init[j] == order[j]);
            }
            assert forall|i: int| 0 <= i < init.len() implies differs(#[trigger] init[i], c) by {
                assert(init[i] == order[i]);
            }
            lemma_inserted_differs(init, c);
            let rest = inserted(init, c);
            assert(all == rest.push(order.last()));
            assert forall|i: int| 0 <= i < all.len() implies #[trigger] all[i] == c
                || order.contains(all[i]) by {
                if i < rest.len() {
                    assert(all[i] == rest[i]);
                    if rest[i] != c {
                        let k = init.index_of(rest[i]);
                        assert(order[k] == rest[i]);
                    }
                } else {
                    assert(order[order.len() - 1] == all[i]);
                }
            }
            assert forall|i: int, j: int| 0 <= i < j < all.len() implies differs(
                #[trigger] all[i],
                #[trigger] all[j],
            ) by {
                assert(all[i] == rest[i]);
                if j < rest.len() {
                    assert(all[j] == rest[j]);
                } else if rest[i] == c {
                    assert(differs(order[order.len() - 1], c));
                } else {
                    let k = init.index_of(rest[i]);
                    assert(order[k] == rest[i]);
                    assert(differs(order[k], order[order.len() - 1]));
                }
            }
        }
    }
}

/// Eviction keeps the byte total exact, and where it reports success the new
/// bytes fit under the limit.
pub proof fn law_eviction_accounts(
    before: GraphicsView,
    required: int,
    used: Seq<u64>,
    after: GraphicsView,
    enough: bool,
)
    requires
        accounted(before),
        graphics_wf(before),
        required >= 0,
        is_eviction(before, required, used, after, enough),
    ensures
        accounted(after),
        enough ==> after.total_bytes + required <= before.total_limit,
{
    let need = excess(before, required);
    let order = eviction_order(candidates(before, used));
    if need > 0 && order.len() > 0 {
        let n = choose|n: int|
            {
                &&& #[trigger] is_eviction_count(order, need, n)
                &&& after == evicted(before, used, n)
                &&& enough == (candidate_bytes(order.take(n)) >= need)
            };
        let gone = order.take(n);
        lemma_candidates(before, used);
        law_eviction_order(candidates(before, used));
        lemma_order_differs(candidates(before, used));
        assert forall|i: int| 0 <= i < gone.len() implies stands_for(before, #[trigger] gone[i]) by {
            assert(gone[i] == order[i]);
            assert(candidates(before, used).contains(order[i]));
            let k = candidates(before, used).index_of(order[i]);
            assert(stands_for(before, candidates(before, used)[k]));
        }
        assert forall|i: int, j: int| 0 <= i < j < gone.len() implies differs(
            #[trigger] gone[i],
            #[trigger] gone[j],
        ) by {
            assert(gone[i] == order[i] && gone[j] == order[j]);
        }
        lemma_evict_all(before, gone);
        let done = evicted_all(before, gone);
        lemma_image_bytes_nonneg(done.active.images);
        lemma_image_bytes_nonneg(done.inactive.images);
        lemma_tracked_bytes_nonneg(done.graphic_bytes);
    }
}

/// After images were evicted no placement on either screen lacks its image.
pub proof fn law_no_dangling_placements(g: GraphicsView, used: Seq<u64>, n: int, i: int)
    ensures
        ({
            let after = evicted(g, used, n);
            &&& 0 <= i < after.active.placements.len() ==> has_key(
                after.active.images,
                after.active.placements[i].image_id as u64,
            )
            &&& 0 <= i < after.inactive.placements.len() ==> has_key(
                after.inactive.images,
                after.inactive.placements[i].image_id as u64,
            )
        }),
{
    broadcast use vstd::seq_lib::group_filter_ensures;

    let gone = eviction_order(candidates(g, used)).take(n);
    let done = evicted_all(g, gone);
    let after = evicted(g, used, n);
    if 0 <= i < after.active.placements.len() {
        assert(after.active.placements.contains(after.active.placements[i]));
    }
    if 0 <= i < after.inactive.placements.len() {
        assert(after.inactive.placements.contains(after.inactive.placements[i]));
    }
}

} // verus!
