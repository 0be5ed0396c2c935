//! The images of a window. The terminals of a window share one store while each
//! numbers its own images, once for each of two protocols: an image is known by
//! all three.
use crate::graphics::{GraphicData, GraphicRemoval};
use vstd::prelude::*;

verus! {

/// The protocol that an image came by.
#[derive(Clone, Copy, Debug, PartialEq, Eq, Structural)]
pub enum ImageSource {
    Atlas,
    Kitty,
}

/// What an image is known by.
#[derive(Clone, Copy, Debug, PartialEq, Eq, Structural)]
pub struct ImageKey {
    /// The terminal it belongs to.
    pub route: usize,
    pub source: ImageSource,
    pub id: u64,
}

pub open spec fn atlas_key(route: usize, id: u64) -> ImageKey {
    ImageKey { route, source: ImageSource::Atlas, id }
}

pub open spec fn kitty_key(route: usize, id: u32) -> ImageKey {
    ImageKey { route, source: ImageSource::Kitty, id: id as u64 }
}

impl ImageKey {
    /// The key of an image drawn into cells.
    pub fn atlas(route: usize, id: u64) -> (key: ImageKey)
        ensures
            key == atlas_key(route, id),
    {
        ImageKey { route, source: ImageSource::Atlas, id }
    }

    /// The key of an image placed by its id.
    pub fn kitty(route: usize, id: u32) -> (key: ImageKey)
        ensures
            key == kitty_key(route, id),
    {
        ImageKey { route, source: ImageSource::Kitty, id: id as u64 }
    }
}

/// Images of different terminals, protocols or ids have different keys.
pub proof fn law_image_keys_are_distinct(r: usize, s: usize, a: u64, b: u64, x: u32, y: u32)
    ensures
        atlas_key(r, a) == atlas_key(s, b) <==> r == s && a == b,
        kitty_key(r, x) == kitty_key(s, y) <==> r == s && x == y,
        atlas_key(r, a) != kitty_key(s, x),
{
}

/// The value of a key.
pub open spec fn image_of<V>(entries: Seq<(ImageKey, V)>, key: ImageKey) -> Option<V>
    decreases entries.len(),
{
    if entries.len() == 0 {
        None
    } else if entries.last().0 == key {
        Some(entries.last().1)
    } else {
        image_of(entries.drop_last(), key)
    }
}

/// Images by their keys.
pub struct ImageStore<V> {
    entries: Vec<(ImageKey, V)>,
}

impl<V> ImageStore<V> {
    /// The image of a key.
    pub closed spec fn image(&self, key: ImageKey) -> Option<V> {
        image_of(self.entries@, key)
    }

    pub fn new() -> (store: ImageStore<V>)
        ensures
            forall|key: ImageKey| #[trigger] store.image(key) is None,
    {
        ImageStore { entries: Vec::new() }
    }

    pub fn get(&self, key: ImageKey) -> (image: Option<&V>)
        ensures
            match self.image(key) {
                Some(v) => image matches Some(found) && *found == v,
                None => image is None,
            },
    {
        let mut i: usize = self.entries.len();
        assert(self.entries@.take(i as int) =~= self.entries@);
        while i > 0
            invariant
                i <= self.entries@.len(),
                self.image(key) == image_of(self.entries@.take(i as int), key),
            decreases i,
        {
            assert(self.entries@.take(i as int).drop_last() =~= self.entries@.take(i - 1));
            assert(self.entries@.take(i as int).last() == self.entries@[i - 1]);
            if self.entries[i - 1].0 == key {
                return Some(&self.entries[i - 1].1);
            }
            i = i - 1;
        }
        None
    }

    /// Drops an image.
    pub fn remove(&mut self, key: ImageKey)
        ensures
            forall|k: ImageKey| #[trigger]
                final(self).image(k) == if k == key {
                    None
                } else {
                    old(self).image(k)
                },
    {
        let mut i: usize = self.entries.len();
        while i > 0
            invariant
                i <= self.entries@.len(),
                forall|j: int| i <= j < self.entries@.len() ==> (#[trigger] self.entries@[j]).0 != key,
                forall|k: ImageKey| k != key ==> #[trigger] self.image(k) == old(self).image(k),
            decreases i,
        {
            i = i - 1;
            if self.entries[i].0 == key {
                let ghost before = self.entries@;
                let ghost prior = *self;
                let _ = self.entries.remove(i);
                proof {
                    assert forall|k: ImageKey| k != key implies #[trigger] self.image(k) == old(
                        self,
                    ).image(k) by {
                        assert(prior.image(k) == old(self).image(k));
                        lemma_image_without(before, i as int, k);
                    }
                    assert forall|j: int| i <= j < self.entries@.len() implies (
                    #[trigger] self.entries@[j]).0 != key by {
                        assert(self.entries@[j] == before[j + 1]);
                    }
                }
            }
        }
        proof {
            lemma_image_absent(self.entries@, key);
        }
    }

    /// Puts an image, in the place of an earlier one with its key.
    pub fn insert(&mut self, key: ImageKey, image: V)
        ensures
            forall|k: ImageKey| #[trigger]
                final(self).image(k) == if k == key {
                    Some(image)
                } else {
                    old(self).image(k)
                },
    {
        self.remove(key);
        let ghost before = self.entries@;
        let ghost prior = *self;
        self.entries.push((key, image));
        assert(self.entries@.drop_last() =~= before);
        assert forall|k: ImageKey| #[trigger] self.image(k) == if k == key {
            Some(image)
        } else {
            old(self).image(k)
        } by {
            if k != key {
                assert(prior.image(k) == old(self).image(k));
            }
        }
    }
}

proof fn lemma_image_without<V>(entries: Seq<(ImageKey, V)>, i: int, key: ImageKey)
    requires
        0 <= i < entries.len(),
        entries[i].0 != key,
    ensures
        image_of(entries.remove(i), key) == image_of(entries, key),
    decreases entries.len(),
{
    if i == entries.len() - 1 {
        assert(entries.remove(i) =~= entries.drop_last());
    } else {
        assert(entries.remove(i).last() == entries.last());
        assert(entries.remove(i).drop_last() =~= entries.drop_last().remove(i));
        assert(entries.drop_last()[i] == entries[i]);
        lemma_image_without(entries.drop_last(), i, key);
    }
}

proof fn lemma_image_absent<V>(entries: Seq<(ImageKey, V)>, key: ImageKey)
    requires
        forall|j: int| 0 <= j < entries.len() ==> (#[trigger] entries[j]).0 != key,
    ensures
        image_of(entries, key) is None,
    decreases entries.len(),
{
    if entries.len() > 0 {
        assert(entries[entries.len() - 1].0 != key);
        assert forall|j: int| 0 <= j < entries.drop_last().len() implies (
        #[trigger] entries.drop_last()[j]).0 != key by {
            assert(entries.drop_last()[j] == entries[j]);
        }
        lemma_image_absent(entries.drop_last(), key);
    }
}

/// The key of an image that is dropped.
pub open spec fn removal_key(route: usize, removal: GraphicRemoval) -> ImageKey {
    match removal {
        GraphicRemoval::Atlas(id) => atlas_key(route, id.0),
        GraphicRemoval::Kitty(id) => kitty_key(route, id),
    }
}

/// Whether an image is among those that are dropped.
pub open spec fn is_removed(route: usize, removals: Seq<GraphicRemoval>, key: ImageKey) -> bool {
    exists|i: int| 0 <= i < removals.len() && removal_key(route, #[trigger] removals[i]) == key
}

pub open spec fn atlas_entries<V>(route: usize, images: Seq<(u64, V)>) -> Seq<(ImageKey, V)> {
    Seq::new(images.len(), |i: int| (atlas_key(route, images[i].0), images[i].1))
}

pub open spec fn kitty_entries<V>(route: usize, images: Seq<(u32, V)>) -> Seq<(ImageKey, V)> {
    Seq::new(images.len(), |i: int| (kitty_key(route, images[i].0), images[i].1))
}

/// The image of a key after an update of a terminal: what was put last, else
/// nothing if it was dropped, else what was there.
pub open spec fn updated_image<V>(
    before: Option<V>,
    route: usize,
    removals: Seq<GraphicRemoval>,
    atlas: Seq<(u64, V)>,
    kitty: Seq<(u32, V)>,
    key: ImageKey,
) -> Option<V> {
    match image_of(kitty_entries(route, kitty), key) {
        Some(v) => Some(v),
        None => match image_of(atlas_entries(route, atlas), key) {
            Some(v) => Some(v),
            None => if is_removed(route, removals, key) {
                None
            } else {
                before
            },
        },
    }
}

impl<V> ImageStore<V> {
    /// Takes what a terminal dropped and what it sent. What was dropped goes
    /// first: an image that was dropped and sent again in one go must stay.
    pub fn update(
        &mut self,
        route: usize,
        removals: &Vec<GraphicRemoval>,
        atlas: Vec<(u64, V)>,
        kitty: Vec<(u32, V)>,
    )
        ensures
            forall|key: ImageKey| #[trigger]
                final(self).image(key) == updated_image(
                    old(self).image(key),
                    route,
                    removals@,
                    atlas@,
                    kitty@,
                    key,
                ),
    {
        let ghost start = *self;
        let mut i: usize = 0;
        while i < removals.len()
            invariant
                i <= removals@.len(),
                forall|key: ImageKey| #[trigger]
                    self.image(key) == if is_removed(route, removals@.take(i as int), key) {
                        None
                    } else {
                        start.image(key)
                    },
            decreases removals.len() - i,
        {
            let key = match &removals[i] {
                GraphicRemoval::Atlas(id) => ImageKey::atlas(route, id.0),
                GraphicRemoval::Kitty(id) => ImageKey::kitty(route, *id),
            };
            assert(key == removal_key(route, removals@[i as int]));
            let ghost prior = *self;
            self.remove(key);
            proof {
                let a = removals@.take(i as int);
                let b = removals@.take(i + 1);
                assert forall|k: ImageKey| #[trigger] self.image(k) == if is_removed(route, b, k) {
                    None
                } else {
                    start.image(k)
                } by {
                    assert(prior.image(k) == if is_removed(route, a, k) {
                        None
                    } else {
                        start.image(k)
                    });
                    if is_removed(route, a, k) {
                        let j = choose|j: int|
                            0 <= j < a.len() && removal_key(route, #[trigger] a[j]) == k;
                        assert(b[j] == a[j]);
                        assert(is_removed(route, b, k));
                    }
                    if k == key {
                        assert(b[i as int] == removals@[i as int]);
                        assert(is_removed(route, b, k));
                    }
                    if is_removed(route, b, k) && k != key {
                        let j = choose|j: int|
                            0 <= j < b.len() && removal_key(route, #[trigger] b[j]) == k;
                        assert(j < i);
                        assert(a[j] == b[j]);
                        assert(is_removed(route, a, k));
                    }
                }
            }
            i = i + 1;
        }
        assert(removals@.take(i as int) =~= removals@);
        let ghost cleared = *self;
        let ghost atlas_held = atlas@;
        let ghost all_atlas = atlas_entries(route, atlas_held);
        assert(all_atlas.take(0) =~= Seq::<(ImageKey, V)>::empty());
        for entry in it: atlas
            invariant
                it.seq() == atlas_held,
                all_atlas == atlas_entries(route, atlas_held),
                forall|key: ImageKey| #[trigger]
                    self.image(key) == match image_of(all_atlas.take(it.index() as int), key) {
                        Some(v) => Some(v),
                        None => cleared.image(key),
                    },
        {
            let ghost k = it.index() as int;
            assert(entry == atlas_held[k]);
            assert(all_atlas.take(k + 1).drop_last() =~= all_atlas.take(k));
            assert(all_atlas.take(k + 1).last() == (atlas_key(route, entry.0), entry.1));
            let (id, image) = entry;
            let ghost prior = *self;
            self.insert(ImageKey::atlas(route, id), image);
            assert forall|key: ImageKey| #[trigger] self.image(key) == match image_of(
                all_atlas.take(k + 1),
                key,
            ) {
                Some(v) => Some(v),
                None => cleared.image(key),
            } by {
                assert(prior.image(key) == match image_of(all_atlas.take(k), key) {
                    Some(v) => Some(v),
                    None => cleared.image(key),
                });
            }
        }
        assert(all_atlas.take(all_atlas.len() as int) =~= all_atlas);
        let ghost drawn = *self;
        let ghost kitty_held = kitty@;
        let ghost all_kitty = kitty_entries(route, kitty_held);
        assert(all_kitty.take(0) =~= Seq::<(ImageKey, V)>::empty());
        for entry in it: kitty
            invariant
                it.seq() == kitty_held,
                all_kitty == kitty_entries(route, kitty_held),
                forall|key: ImageKey| #[trigger]
                    self.image(key) == match image_of(all_kitty.take(it.index() as int), key) {
                        Some(v) => Some(v),
                        None => drawn.image(key),
                    },
        {
            let ghost k = it.index() as int;
            assert(entry == kitty_held[k]);
            assert(all_kitty.take(k + 1).drop_last() =~= all_kitty.take(k));
            assert(all_kitty.take(k + 1).last() == (kitty_key(route, entry.0), entry.1));
            let (id, image) = entry;
            let ghost prior = *self;
            self.insert(ImageKey::kitty(route, id), image);
            assert forall|key: ImageKey| #[trigger] self.image(key) == match image_of(
                all_kitty.take(k + 1),
                key,
            ) {
                Some(v) => Some(v),
                None => drawn.image(key),
            } by {
                assert(prior.image(key) == match image_of(all_kitty.take(k), key) {
                    Some(v) => Some(v),
                    None => drawn.image(key),
                });
            }
        }
        assert(all_kitty.take(all_kitty.len() as int) =~= all_kitty);
        assert forall|key: ImageKey| #[trigger] self.image(key) == updated_image(
            start.image(key),
            route,
            removals@,
            atlas_held,
            kitty_held,
            key,
        ) by {
            assert(self.image(key) == match image_of(all_kitty, key) {
                Some(v) => Some(v),
                None => drawn.image(key),
            });
            assert(drawn.image(key) == match image_of(all_atlas, key) {
                Some(v) => Some(v),
                None => cleared.image(key),
            });
            assert(cleared.image(key) == if is_removed(route, removals@, key) {
                None
            } else {
                start.image(key)
            });
        }
    }
}

/// An update of one terminal leaves the images of the others alone.
pub proof fn law_updates_stay_in_their_terminal<V>(
    before: Option<V>,
    route: usize,
    removals: Seq<GraphicRemoval>,
    atlas: Seq<(u64, V)>,
    kitty: Seq<(u32, V)>,
    key: ImageKey,
)
    requires
        key.route != route,
    ensures
        updated_image(before, route, removals, atlas, kitty, key) == before,
{
    lemma_image_absent(kitty_entries(route, kitty), key);
    lemma_image_absent(atlas_entries(route, atlas), key);
}

/// An image that was dropped and sent again in one update is there afterwards.
pub proof fn law_a_resent_image_stays<V>(
    before: Option<V>,
    route: usize,
    removals: Seq<GraphicRemoval>,
    atlas: Seq<(u64, V)>,
    kitty: Seq<(u32, V)>,
    i: int,
)
    requires
        0 <= i < kitty.len(),
    ensures
        updated_image(before, route, removals, atlas, kitty, kitty_key(route, kitty[i].0)) is Some,
{
    lemma_image_present(kitty_entries(route, kitty), i);
}

proof fn lemma_image_present<V>(entries: Seq<(ImageKey, V)>, i: int)
    requires
        0 <= i < entries.len(),
    ensures
        image_of(entries, entries[i].0) is Some,
    decreases entries.len(),
{
    if entries.last().0 != entries[i].0 {
        assert(entries.drop_last()[i] == entries[i]);
        lemma_image_present(entries.drop_last(), i);
    }
}

/// Whether pixels are uploaded: not where the same transmission was already.
pub fn needs_upload(present: Option<u64>, transmit_time: u64) -> (upload: bool)
    ensures
        upload == (present != Some(transmit_time)),
{
    match present {
        Some(t) => t != transmit_time,
        None => true,
    }
}

/// An image that was uploaded: its texture, the size it is shown at, and the
/// time of the transmission that it came by.
pub struct GraphicDataEntry<H> {
    pub handle: H,
    pub width: usize,
    pub height: usize,
    pub transmit_time: u64,
}

impl<H> GraphicDataEntry<H> {
    /// The entry of an image whose pixels are in the texture.
    pub fn from_graphic_data(handle: H, data: &GraphicData) -> (entry: GraphicDataEntry<H>)
        ensures
            entry.handle == handle,
            entry.width == match data.display_width {
                Some(w) => w,
                None => data.width,
            },
            entry.height == match data.display_height {
                Some(h) => h,
                None => data.height,
            },
            entry.transmit_time == data.transmit_time,
    {
        let size = display_size(data.width, data.height, data.display_width, data.display_height);
        GraphicDataEntry { handle, width: size.0, height: size.1, transmit_time: data.transmit_time }
    }
}

/// Whether the image of a key came by the transmission of that time.
pub open spec fn is_present<H>(present: Option<GraphicDataEntry<H>>, transmit_time: u64) -> bool {
    present matches Some(entry) && entry.transmit_time == transmit_time
}

impl<H> ImageStore<GraphicDataEntry<H>> {
    /// Takes an image that was sent. The same transmission a second time leaves
    /// everything as it is; anything else takes the place of the image with the
    /// key.
    pub fn upload(&mut self, key: ImageKey, entry: GraphicDataEntry<H>) -> (uploaded: bool)
        ensures
            uploaded == !is_present(old(self).image(key), entry.transmit_time),
            forall|k: ImageKey| #[trigger]
                final(self).image(k) == if k == key {
                    taken(old(self).image(key), entry)
                } else {
                    old(self).image(k)
                },
    {
        let present: Option<u64> = match self.get(key) {
            Some(held) => Some(held.transmit_time),
            None => None,
        };
        let uploaded = needs_upload(present, entry.transmit_time);
        if uploaded {
            self.insert(key, entry);
        }
        uploaded
    }
}

/// An image that was taken is there afterwards, and sending it again by the same
/// transmission changes nothing.
pub proof fn law_a_transmission_is_taken_once<H>(
    before: Option<GraphicDataEntry<H>>,
    first: GraphicDataEntry<H>,
    second: GraphicDataEntry<H>,
)
    requires
        first.transmit_time == second.transmit_time,
    ensures
        ({
            let mid = taken(before, first);
            &&& is_present(mid, first.transmit_time)
            &&& taken(mid, second) == mid
        }),
{
}

/// The image of a key after an image was sent for it.
pub open spec fn taken<H>(
    before: Option<GraphicDataEntry<H>>,
    entry: GraphicDataEntry<H>,
) -> Option<GraphicDataEntry<H>> {
    if is_present(before, entry.transmit_time) {
        before
    } else {
        Some(entry)
    }
}

/// The size an image is shown at: its own where nothing else is asked for.
pub fn display_size(
    width: usize,
    height: usize,
    display_width: Option<usize>,
    display_height: Option<usize>,
) -> (size: (usize, usize))
    ensures
        size.0 == match display_width {
            Some(w) => w,
            None => width,
        },
        size.1 == match display_height {
            Some(h) => h,
            None => height,
        },
{
    (
        match display_width {
            Some(w) => w,
            None => width,
        },
        match display_height {
            Some(h) => h,
            None => height,
        },
    )
}

} // verus!
