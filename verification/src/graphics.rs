//! Book-keeping for images in a terminal: what waits for upload, what must be
//! removed from the renderer, how many bytes are held, and what is evicted when
//! the memory limit is reached.
//!
//! Times are plain numbers supplied by the caller; a larger one is later.
use crate::table::{bound, has_key, lookup, unbound, Table};
use vstd::prelude::*;

verus! {

/// Bytes of image data that are held by default.
pub const DEFAULT_TOTAL_LIMIT: usize = 320 * 1024 * 1024;

/// Placement ids from here on are allocated internally; clients use lower ones.
pub const FIRST_INTERNAL_PLACEMENT_ID: u32 = 0x8000_0000;

/// Identifier of an atlas graphic (sixel, iTerm2).
#[derive(Clone, Copy, Debug, PartialEq, Eq, Hash, Structural)]
pub struct GraphicId(pub u64);

impl GraphicId {
    pub fn new(id: u64) -> (graphic_id: GraphicId)
        ensures
            graphic_id == GraphicId(id),
    {
        GraphicId(id)
    }

    pub fn get(self) -> (id: u64)
        ensures
            id == self.0,
    {
        self.0
    }
}

#[derive(Clone, Copy, Debug, PartialEq, Eq, Structural)]
pub enum ColorType {
    Rgb,
    Rgba,
}

/// Decoded pixels of one image.
#[derive(Clone, Debug, PartialEq, Eq)]
pub struct GraphicData {
    pub id: GraphicId,
    pub width: usize,
    pub height: usize,
    pub color_type: ColorType,
    pub pixels: Vec<u8>,
    pub is_opaque: bool,
    /// The size it is shown at, where that is not its own.
    pub display_width: Option<usize>,
    pub display_height: Option<usize>,
    pub transmit_time: u64,
}

impl GraphicData {
    /// Whether the picture has one alpha byte for every pixel.
    pub open spec fn has_alpha_for_all(&self) -> bool {
        self.width * self.height * 4 <= self.pixels@.len()
    }

    /// Whether a pixel is fully opaque.
    pub open spec fn opaque_at(&self, x: int, y: int) -> bool {
        self.pixels@[(y * self.width + x) * 4 + 3] == 255
    }

    /// Whether the region lies inside the picture and nothing shows through it.
    pub fn is_filled(&self, x: usize, y: usize, width: usize, height: usize) -> (filled: bool)
        requires
            self.is_opaque || self.color_type == ColorType::Rgb || self.has_alpha_for_all(),
        ensures
            filled == (x + width <= self.width && y + height <= self.height && (self.is_opaque
                || self.color_type == ColorType::Rgb || forall|px: int, py: int|
                x <= px < x + width && y <= py < y + height ==> #[trigger] self.opaque_at(px, py))),
    {
        if width > self.width || x > self.width - width || height > self.height || y > self.height
            - height {
            return false;
        }
        if self.is_opaque || self.color_type == ColorType::Rgb {
            return true;
        }
        let mut row: usize = y;
        while row < y + height
            invariant
                y <= row <= y + height,
                x + width <= self.width,
                y + height <= self.height,
                !self.is_opaque,
                self.color_type != ColorType::Rgb,
                self.has_alpha_for_all(),
                forall|px: int, py: int|
                    x <= px < x + width && y <= py < row ==> #[trigger] self.opaque_at(px, py),
            decreases y + height - row,
        {
            let mut column: usize = x;
            while column < x + width
                invariant
                    y <= row < y + height,
                    x <= column <= x + width,
                    x + width <= self.width,
                    y + height <= self.height,
                    !self.is_opaque,
                    self.color_type != ColorType::Rgb,
                    self.has_alpha_for_all(),
                    forall|px: int, py: int|
                        x <= px < x + width && y <= py < row ==> #[trigger] self.opaque_at(px, py),
                    forall|px: int|
                        x <= px < column ==> #[trigger] self.opaque_at(px, row as int),
                decreases x + width - column,
            {
                proof {
                    lemma_pixel_index(
                        self.width as int,
                        self.height as int,
                        column as int,
                        row as int,
                    );
                    assert(self.pixels@.len() == self.pixels.len());
                }
                let index: usize = (row * self.width + column) * 4 + 3;
                if self.pixels[index] != 255 {
                    assert(!self.opaque_at(column as int, row as int));
                    return false;
                }
                column = column + 1;
            }
            row = row + 1;
        }
        true
    }
}

proof fn lemma_pixel_index(width: int, height: int, x: int, y: int)
    by (nonlinear_arith)
    requires
        0 <= x < width,
        0 <= y < height,
    ensures
        0 <= y * width,
        (y * width + x) * 4 + 3 < width * height * 4,
{
}

/// A graphic scheduled for removal, tagged with the id space it lives in: atlas
/// graphics and kitty images can have the same number.
#[derive(Clone, Copy, Debug, PartialEq, Eq, Structural)]
pub enum GraphicRemoval {
    Atlas(GraphicId),
    Kitty(u32),
}

/// What the renderer is handed.
#[derive(Debug, Clone)]
pub struct UpdateQueues {
    /// New atlas graphics.
    pub pending: Vec<GraphicData>,
    /// New kitty images, by image id.
    pub pending_images: Vec<(u32, GraphicData)>,
    pub remove_queue: Vec<GraphicRemoval>,
}

/// A kitty image kept for placement.
#[derive(Clone, Debug, PartialEq, Eq)]
pub struct StoredImage {
    pub data: GraphicData,
    pub transmission_time: u64,
}

/// Overlay placement of a kitty image, keyed by image id and placement id.
#[derive(Clone, Copy, Debug, PartialEq, Eq, Structural)]
pub struct KittyPlacement {
    pub image_id: u32,
    pub placement_id: u32,
    /// Source rectangle within the image, in pixels.
    pub source_x: u32,
    pub source_y: u32,
    pub source_width: u32,
    pub source_height: u32,
    /// Grid column of the top-left corner.
    pub dest_col: usize,
    /// Absolute row of the top-left corner.
    pub dest_row: i64,
    /// Display size in cells.
    pub columns: u32,
    pub rows: u32,
    /// Display size in pixels.
    pub pixel_width: u32,
    pub pixel_height: u32,
    /// Pixel offset inside the first cell.
    pub cell_x_offset: u32,
    pub cell_y_offset: u32,
    pub z_index: i32,
    pub transmit_time: u64,
}

/// Placement of a kitty image through placeholder cells.
#[derive(Clone, Copy, Debug, PartialEq, Eq, Structural)]
pub struct VirtualPlacement {
    pub image_id: u32,
    pub placement_id: u32,
    pub columns: u32,
    pub rows: u32,
    pub x: u32,
    pub y: u32,
}

/// Kitty state of one screen. The main and the alternate screen each own their
/// images, placements and number mappings.
#[derive(Debug, Clone)]
pub struct KittyScreenState {
    pub kitty_images: Table<StoredImage>,
    /// Image number to the image most recently sent with it.
    pub kitty_image_numbers: Table<u32>,
    pub kitty_placements: Vec<KittyPlacement>,
    pub kitty_virtual_placements: Vec<VirtualPlacement>,
}

/// The mathematical value of a [`KittyScreenState`].
#[verifier::ext_equal]
pub struct ScreenView {
    pub images: Seq<(u64, StoredImage)>,
    pub numbers: Seq<(u64, u32)>,
    pub placements: Seq<KittyPlacement>,
    pub virtuals: Seq<VirtualPlacement>,
}

impl View for KittyScreenState {
    type V = ScreenView;

    open spec fn view(&self) -> ScreenView {
        ScreenView {
            images: self.kitty_images@,
            numbers: self.kitty_image_numbers@,
            placements: self.kitty_placements@,
            virtuals: self.kitty_virtual_placements@,
        }
    }
}

pub open spec fn empty_screen() -> ScreenView {
    ScreenView {
        images: Seq::empty(),
        numbers: Seq::empty(),
        placements: Seq::empty(),
        virtuals: Seq::empty(),
    }
}

impl KittyScreenState {
    pub fn new() -> (screen: KittyScreenState)
        ensures
            screen@ == empty_screen(),
    {
        KittyScreenState {
            kitty_images: Table::new(),
            kitty_image_numbers: Table::new(),
            kitty_placements: Vec::new(),
            kitty_virtual_placements: Vec::new(),
        }
    }
}

/// The images of one terminal. `active` is the screen being shown.
#[derive(Debug, Clone)]
pub struct Graphics {
    pub last_id: u64,
    /// New atlas graphics, received from the pty.
    pub pending: Vec<GraphicData>,
    /// New kitty images, by image id.
    pub pending_images: Vec<(u32, GraphicData)>,
    /// Graphics removed from the grid.
    pub texture_operations: Vec<GraphicRemoval>,
    pub active: KittyScreenState,
    pub inactive: KittyScreenState,
    /// Bytes of image data held.
    pub total_bytes: usize,
    pub total_limit: usize,
    /// When each atlas graphic was added.
    pub image_timestamps: Table<u64>,
    /// Bytes of each tracked atlas graphic.
    pub graphic_bytes: Table<usize>,
    /// Atlas graphics placed in the grid.
    pub placed_textures: Vec<u64>,
    pub next_internal_placement_id: u32,
    /// Whether overlay placements changed.
    pub kitty_graphics_dirty: bool,
    /// Set while an insert over the limit could not free enough.
    pub over_budget_warned: bool,
}

/// The mathematical value of [`Graphics`].
#[verifier::ext_equal]
pub struct GraphicsView {
    pub last_id: u64,
    pub pending: Seq<GraphicData>,
    pub pending_images: Seq<(u32, GraphicData)>,
    pub removals: Seq<GraphicRemoval>,
    pub active: ScreenView,
    pub inactive: ScreenView,
    pub total_bytes: int,
    pub total_limit: int,
    pub timestamps: Seq<(u64, u64)>,
    pub graphic_bytes: Seq<(u64, usize)>,
    pub placed: Seq<u64>,
    pub next_internal_placement_id: u32,
    pub dirty: bool,
    pub warned: bool,
}

impl View for Graphics {
    type V = GraphicsView;

    open spec fn view(&self) -> GraphicsView {
        GraphicsView {
            last_id: self.last_id,
            pending: self.pending@,
            pending_images: self.pending_images@,
            removals: self.texture_operations@,
            active: self.active@,
            inactive: self.inactive@,
            total_bytes: self.total_bytes as int,
            total_limit: self.total_limit as int,
            timestamps: self.image_timestamps@,
            graphic_bytes: self.graphic_bytes@,
            placed: self.placed_textures@,
            next_internal_placement_id: self.next_internal_placement_id,
            dirty: self.kitty_graphics_dirty,
            warned: self.over_budget_warned,
        }
    }
}

/// No graphics, with the default limit.
pub open spec fn no_graphics() -> GraphicsView {
    GraphicsView {
        last_id: 0,
        pending: Seq::empty(),
        pending_images: Seq::empty(),
        removals: Seq::empty(),
        active: empty_screen(),
        inactive: empty_screen(),
        total_bytes: 0,
        total_limit: DEFAULT_TOTAL_LIMIT as int,
        timestamps: Seq::empty(),
        graphic_bytes: Seq::empty(),
        placed: Seq::empty(),
        next_internal_placement_id: 0,
        dirty: false,
        warned: false,
    }
}

/// After `bytes` were freed: the warn latch is released below the limit.
pub open spec fn deflated(g: GraphicsView, bytes: int) -> GraphicsView {
    let total = if bytes >= g.total_bytes {
        0
    } else {
        g.total_bytes - bytes
    };
    GraphicsView { total_bytes: total, warned: g.warned && total >= g.total_limit, ..g }
}

/// Bytes of all images of a table.
pub open spec fn image_bytes(images: Seq<(u64, StoredImage)>) -> int
    decreases images.len(),
{
    if images.len() == 0 {
        0
    } else {
        image_bytes(images.drop_last()) + images.last().1.data.pixels@.len()
    }
}

/// Bytes of all tracked atlas graphics.
pub open spec fn tracked_bytes(sizes: Seq<(u64, usize)>) -> int
    decreases sizes.len(),
{
    if sizes.len() == 0 {
        0
    } else {
        tracked_bytes(sizes.drop_last()) + sizes.last().1
    }
}

/// An atlas graphic forgotten, with its bytes, where it is tracked.
pub open spec fn untracked(g: GraphicsView, id: u64) -> GraphicsView {
    match lookup(g.graphic_bytes, id) {
        Some(bytes) => deflated(
            GraphicsView {
                graphic_bytes: unbound(g.graphic_bytes, id),
                timestamps: unbound(g.timestamps, id),
                ..g
            },
            bytes as int,
        ),
        None => g,
    }
}

/// Every atlas graphic of a removal list forgotten.
pub open spec fn untracked_all(g: GraphicsView, removals: Seq<GraphicRemoval>) -> GraphicsView
    decreases removals.len(),
{
    if removals.len() == 0 {
        g
    } else {
        let before = untracked_all(g, removals.drop_last());
        match removals.last() {
            GraphicRemoval::Atlas(id) => untracked(before, id.0),
            GraphicRemoval::Kitty(_) => before,
        }
    }
}

/// Removal orders for the images of one screen that the other does not hold.
pub open spec fn removals_unless(
    images: Seq<(u64, StoredImage)>,
    other: Seq<(u64, StoredImage)>,
) -> Seq<GraphicRemoval>
    decreases images.len(),
{
    if images.len() == 0 {
        Seq::empty()
    } else {
        let rest = removals_unless(images.drop_last(), other);
        if has_key(other, images.last().0) {
            rest
        } else {
            rest.push(GraphicRemoval::Kitty(images.last().0 as u32))
        }
    }
}

/// The images chosen by `hit`, in order.
pub open spec fn chosen(images: Seq<(u64, StoredImage)>, hit: Seq<bool>, want: bool) -> Seq<
    (u64, StoredImage),
>
    decreases images.len(),
{
    if images.len() == 0 {
        Seq::empty()
    } else {
        let rest = chosen(images.drop_last(), hit.drop_last(), want);
        if hit.last() == want {
            rest.push(images.last())
        } else {
            rest
        }
    }
}

/// Number mappings that still lead to an image.
pub open spec fn live_numbers(
    numbers: Seq<(u64, u32)>,
    images: Seq<(u64, StoredImage)>,
) -> Seq<(u64, u32)> {
    numbers.filter(|e: (u64, u32)| has_key(images, e.1 as u64))
}

/// After the images of the shown screen that `hit` chooses were deleted.
pub open spec fn deleted(g: GraphicsView, hit: Seq<bool>) -> GraphicsView {
    let gone = chosen(g.active.images, hit, true);
    let images = chosen(g.active.images, hit, false);
    if gone.len() == 0 {
        g
    } else {
        deflated(
            GraphicsView {
                active: ScreenView {
                    images,
                    numbers: live_numbers(g.active.numbers, images),
                    ..g.active
                },
                removals: g.removals + removals_unless(gone, g.inactive.images),
                dirty: true,
                ..g
            },
            image_bytes(gone),
        )
    }
}

#[derive(Clone, Copy, Debug, PartialEq, Eq, Structural)]
pub enum CandidateSource {
    /// An atlas graphic waiting for upload.
    Pending,
    ActiveKitty,
    InactiveKitty,
}

/// An image that may be evicted. A lower tier goes first: images of the screen
/// that is not shown, then unused ones, then used ones.
#[derive(Clone, Copy, Debug, PartialEq, Eq, Structural)]
pub struct Candidate {
    pub id: u64,
    pub time: u64,
    pub tier: u8,
    pub bytes: usize,
    pub source: CandidateSource,
}

/// The tier of an image of the shown screen.
pub open spec fn shown_tier(used: Seq<u64>, id: u64) -> u8 {
    if used.contains(id) {
        2
    } else {
        1
    }
}

/// Pending atlas graphics that have a time stamp.
pub open spec fn pending_candidates(
    pending: Seq<GraphicData>,
    timestamps: Seq<(u64, u64)>,
    used: Seq<u64>,
) -> Seq<Candidate>
    decreases pending.len(),
{
    if pending.len() == 0 {
        Seq::empty()
    } else {
        let rest = pending_candidates(pending.drop_last(), timestamps, used);
        let graphic = pending.last();
        match lookup(timestamps, graphic.id.0) {
            Some(time) => rest.push(
                Candidate {
                    id: graphic.id.0,
                    time,
                    tier: shown_tier(used, graphic.id.0),
                    bytes: graphic.pixels@.len() as usize,
                    source: CandidateSource::Pending,
                },
            ),
            None => rest,
        }
    }
}

pub open spec fn active_candidate(e: (u64, StoredImage), used: Seq<u64>) -> Candidate {
    Candidate {
        id: e.0,
        time: e.1.transmission_time,
        tier: shown_tier(used, e.0),
        bytes: e.1.data.pixels@.len() as usize,
        source: CandidateSource::ActiveKitty,
    }
}

pub open spec fn inactive_candidate(e: (u64, StoredImage)) -> Candidate {
    Candidate {
        id: e.0,
        time: e.1.transmission_time,
        tier: 0,
        bytes: e.1.data.pixels@.len() as usize,
        source: CandidateSource::InactiveKitty,
    }
}

/// All images that may be evicted.
pub open spec fn candidates(g: GraphicsView, used: Seq<u64>) -> Seq<Candidate> {
    pending_candidates(g.pending, g.timestamps, used) + Seq::new(
        g.active.images.len(),
        |i: int| active_candidate(g.active.images[i], used),
    ) + Seq::new(g.inactive.images.len(), |i: int| inactive_candidate(g.inactive.images[i]))
}

/// Whether `a` may be evicted before `b`: by tier, then oldest first.
pub open spec fn goes_first(a: Candidate, b: Candidate) -> bool {
    a.tier < b.tier || a.tier == b.tier && a.time <= b.time
}

/// `c` added to an order, behind those that may go before it.
pub open spec fn inserted(order: Seq<Candidate>, c: Candidate) -> Seq<Candidate>
    decreases order.len(),
{
    if order.len() == 0 {
        seq![c]
    } else if goes_first(order.last(), c) {
        order.push(c)
    } else {
        inserted(order.drop_last(), c).push(order.last())
    }
}

/// The candidates in the order of eviction.
pub open spec fn eviction_order(cands: Seq<Candidate>) -> Seq<Candidate>
    decreases cands.len(),
{
    if cands.len() == 0 {
        Seq::empty()
    } else {
        inserted(eviction_order(cands.drop_last()), cands.last())
    }
}

pub open spec fn candidate_bytes(order: Seq<Candidate>) -> int
    decreases order.len(),
{
    if order.len() == 0 {
        0
    } else {
        candidate_bytes(order.drop_last()) + order.last().bytes
    }
}

/// Whether `n` is how many of `order` are evicted to free `need` bytes: as few
/// as suffice, all where none suffice.
pub open spec fn is_eviction_count(order: Seq<Candidate>, need: int, n: int) -> bool {
    &&& 0 <= n <= order.len()
    &&& forall|k: int| 0 <= k < n ==> #[trigger] candidate_bytes(order.take(k)) < need
    &&& n < order.len() ==> candidate_bytes(order.take(n)) >= need
}

/// One candidate removed from where it lives. A kitty id on both screens shares
/// one texture, which goes once neither screen holds it.
pub open spec fn evicted_one(g: GraphicsView, c: Candidate) -> GraphicsView {
    let stamped = GraphicsView { timestamps: unbound(g.timestamps, c.id), ..g };
    match c.source {
        CandidateSource::Pending => GraphicsView {
            pending: g.pending.filter(|p: GraphicData| p.id.0 != c.id),
            graphic_bytes: unbound(g.graphic_bytes, c.id),
            removals: g.removals.push(GraphicRemoval::Atlas(GraphicId(c.id))),
            ..stamped
        },
        CandidateSource::ActiveKitty => GraphicsView {
            active: ScreenView {
                images: unbound(g.active.images, c.id),
                numbers: g.active.numbers.filter(|e: (u64, u32)| e.1 as u64 != c.id),
                ..g.active
            },
            dirty: true,
            removals: if has_key(g.inactive.images, c.id) {
                g.removals
            } else {
                g.removals.push(GraphicRemoval::Kitty(c.id as u32))
            },
            ..stamped
        },
        CandidateSource::InactiveKitty => GraphicsView {
            inactive: ScreenView {
                images: unbound(g.inactive.images, c.id),
                numbers: g.inactive.numbers.filter(|e: (u64, u32)| e.1 as u64 != c.id),
                ..g.inactive
            },
            removals: if has_key(g.active.images, c.id) {
                g.removals
            } else {
                g.removals.push(GraphicRemoval::Kitty(c.id as u32))
            },
            ..stamped
        },
    }
}

pub open spec fn evicted_all(g: GraphicsView, gone: Seq<Candidate>) -> GraphicsView
    decreases gone.len(),
{
    if gone.len() == 0 {
        g
    } else {
        evicted_one(evicted_all(g, gone.drop_last()), gone.last())
    }
}

/// The placements whose image is still there.
pub open spec fn backed(
    placements: Seq<KittyPlacement>,
    images: Seq<(u64, StoredImage)>,
) -> Seq<KittyPlacement> {
    placements.filter(|p: KittyPlacement| has_key(images, p.image_id as u64))
}

/// Dangling placements dropped on both screens.
pub open spec fn swept(g: GraphicsView) -> GraphicsView {
    GraphicsView {
        active: ScreenView {
            placements: backed(g.active.placements, g.active.images),
            ..g.active
        },
        inactive: ScreenView {
            placements: backed(g.inactive.placements, g.inactive.images),
            ..g.inactive
        },
        ..g
    }
}

/// Bytes over the limit if `required` more were held.
pub open spec fn excess(g: GraphicsView, required: int) -> int {
    g.total_bytes + required - g.total_limit
}

/// After making room for `required` bytes by evicting the first `n` in order.
pub open spec fn evicted(g: GraphicsView, used: Seq<u64>, n: int) -> GraphicsView {
    let gone = eviction_order(candidates(g, used)).take(n);
    deflated(swept(evicted_all(g, gone)), candidate_bytes(gone))
}

/// Whether `after` and `enough` are what making room for `required` bytes
/// gives.
pub open spec fn is_eviction(
    before: GraphicsView,
    required: int,
    used: Seq<u64>,
    after: GraphicsView,
    enough: bool,
) -> bool {
    let need = excess(before, required);
    let order = eviction_order(candidates(before, used));
    if need <= 0 {
        after == before && enough
    } else if order.len() == 0 {
        after == before && !enough
    } else {
        exists|n: int|
            {
                &&& #[trigger] is_eviction_count(order, need, n)
                &&& after == evicted(before, used, n)
                &&& enough == (candidate_bytes(order.take(n)) >= need)
            }
    }
}

/// Whether `id` occurs in `ids`.
fn has_id(ids: &Vec<u64>, id: u64) -> (found: bool)
    ensures
        found == ids@.contains(id),
{
    let mut i: usize = 0;
    while i < ids.len()
        invariant
            i <= ids.len(),
            forall|j: int| 0 <= j < i ==> ids@[j] != id,
        decreases ids.len() - i,
    {
        if ids[i] == id {
            return true;
        }
        i = i + 1;
    }
    false
}

/// The mappings to other images, in order.
fn numbers_without(numbers: Table<u32>, id: u64) -> (kept: Table<u32>)
    ensures
        kept@ == numbers@.filter(|e: (u64, u32)| e.1 as u64 != id),
{
    let mut kept: Table<u32> = Table::new();
    let mut i: usize = 0;
    let ghost wanted = |e: (u64, u32)| e.1 as u64 != id;
    while i < numbers.entries.len()
        invariant
            i <= numbers.entries.len(),
            wanted == (|e: (u64, u32)| e.1 as u64 != id),
            kept@ == numbers@.take(i as int).filter(wanted),
        decreases numbers.entries.len() - i,
    {
        let e = numbers.entries[i];
        proof {
            lemma_filter_step(numbers@, wanted, i as int);
        }
        if e.1 as u64 != id {
            kept.entries.push(e);
        }
        i = i + 1;
    }
    assert(numbers@.take(i as int) =~= numbers@);
    kept
}

/// The mappings that lead to an image, in order.
fn numbers_backed(numbers: Table<u32>, images: &Table<StoredImage>) -> (kept: Table<u32>)
    ensures
        kept@ == live_numbers(numbers@, images@),
{
    let mut kept: Table<u32> = Table::new();
    let mut i: usize = 0;
    let ghost wanted = |e: (u64, u32)| has_key(images@, e.1 as u64);
    while i < numbers.entries.len()
        invariant
            i <= numbers.entries.len(),
            wanted == (|e: (u64, u32)| has_key(images@, e.1 as u64)),
            kept@ == numbers@.take(i as int).filter(wanted),
        decreases numbers.entries.len() - i,
    {
        let e = numbers.entries[i];
        proof {
            lemma_filter_step(numbers@, wanted, i as int);
        }
        if images.contains_key(e.1 as u64) {
            kept.entries.push(e);
        }
        i = i + 1;
    }
    assert(numbers@.take(i as int) =~= numbers@);
    kept
}

/// The placements that an image backs, in order.
fn placements_backed(placements: &Vec<KittyPlacement>, images: &Table<StoredImage>) -> (kept: Vec<
    KittyPlacement,
>)
    ensures
        kept@ == backed(placements@, images@),
{
    let mut kept: Vec<KittyPlacement> = Vec::new();
    let mut i: usize = 0;
    let ghost wanted = |p: KittyPlacement| has_key(images@, p.image_id as u64);
    while i < placements.len()
        invariant
            i <= placements.len(),
            wanted == (|p: KittyPlacement| has_key(images@, p.image_id as u64)),
            kept@ == placements@.take(i as int).filter(wanted),
        decreases placements.len() - i,
    {
        let p = placements[i];
        proof {
            lemma_filter_step(placements@, wanted, i as int);
        }
        if images.contains_key(p.image_id as u64) {
            kept.push(p);
        }
        i = i + 1;
    }
    assert(placements@.take(i as int) =~= placements@);
    kept
}

/// Filtering one more element.
proof fn lemma_filter_step<T>(s: Seq<T>, wanted: spec_fn(T) -> bool, i: int)
    requires
        0 <= i < s.len(),
    ensures
        s.take(i + 1).filter(wanted) == if wanted(s[i]) {
            s.take(i).filter(wanted).push(s[i])
        } else {
            s.take(i).filter(wanted)
        },
{
    reveal(Seq::filter);
    assert(s.take(i + 1).drop_last() =~= s.take(i));
    assert(s.take(i + 1).last() == s[i]);
}

/// Adds `c` to an order.
fn insert_candidate(order: &mut Vec<Candidate>, c: Candidate)
    ensures
        final(order)@ == inserted(old(order)@, c),
{
    let ghost before = order@;
    let mut j: usize = order.len();
    assert(before.take(j as int) =~= before);
    assert(inserted(before, c) =~= inserted(before.take(j as int), c) + before.skip(j as int));
    while j > 0 && !(order[j - 1].tier < c.tier || order[j - 1].tier == c.tier && order[j - 1].time
        <= c.time)
        invariant
            j <= order.len(),
            order@ == before,
            inserted(before, c) == inserted(before.take(j as int), c) + before.skip(j as int),
        decreases j,
    {
        proof {
            let head = before.take(j as int);
            assert(head.drop_last() =~= before.take(j - 1));
            assert(inserted(before.take(j - 1), c).push(before[j - 1]) + before.skip(j as int)
                =~= inserted(before.take(j - 1), c) + before.skip(j - 1));
        }
        j = j - 1;
    }
    proof {
        let head = before.take(j as int);
        if j == 0 {
            assert(inserted(head, c) =~= head.push(c));
        } else {
            assert(head.last() == before[j - 1]);
        }
        assert(before.insert(j as int, c) =~= head.push(c) + before.skip(j as int));
    }
    order.insert(j, c);
}

impl Graphics {
    /// No graphics, with the default limit.
    pub fn new() -> (graphics: Graphics)
        ensures
            graphics@ == no_graphics(),
    {
        Graphics {
            last_id: 0,
            pending: Vec::new(),
            pending_images: Vec::new(),
            texture_operations: Vec::new(),
            active: KittyScreenState::new(),
            inactive: KittyScreenState::new(),
            total_bytes: 0,
            total_limit: DEFAULT_TOTAL_LIMIT,
            image_timestamps: Table::new(),
            graphic_bytes: Table::new(),
            placed_textures: Vec::new(),
            next_internal_placement_id: 0,
            kitty_graphics_dirty: false,
            over_budget_warned: false,
        }
    }

    /// A new atlas identifier.
    pub fn next_id(&mut self) -> (id: GraphicId)
        requires
            old(self).last_id < u64::MAX,
        ensures
            id.0 == old(self)@.last_id + 1,
            final(self)@ == (GraphicsView { last_id: id.0, ..old(self)@ }),
    {
        self.last_id = self.last_id + 1;
        GraphicId::new(self.last_id)
    }

    /// Whether the renderer has anything to do.
    pub fn has_pending_updates(&self) -> (some: bool)
        ensures
            some == (self@.pending.len() > 0 || self@.pending_images.len() > 0
                || self@.removals.len() > 0),
    {
        self.pending.len() > 0 || self.pending_images.len() > 0 || self.texture_operations.len() > 0
    }

    /// A placement id that no client chose and that differs from the last ones.
    pub fn allocate_internal_placement_id(&mut self) -> (id: u32)
        ensures
            id == if old(self)@.next_internal_placement_id < FIRST_INTERNAL_PLACEMENT_ID {
                FIRST_INTERNAL_PLACEMENT_ID
            } else {
                old(self)@.next_internal_placement_id
            },
            final(self)@ == (GraphicsView {
                next_internal_placement_id: if id == u32::MAX {
                    FIRST_INTERNAL_PLACEMENT_ID
                } else {
                    (id + 1) as u32
                },
                ..old(self)@
            }),
    {
        if self.next_internal_placement_id < FIRST_INTERNAL_PLACEMENT_ID {
            self.next_internal_placement_id = FIRST_INTERNAL_PLACEMENT_ID;
        }
        let id: u32 = self.next_internal_placement_id;
        self.next_internal_placement_id = if id == u32::MAX {
            FIRST_INTERNAL_PLACEMENT_ID
        } else {
            id + 1
        };
        id
    }

    /// Exchanges the shown screen with the other one.
    pub fn swap_kitty_screen_state(&mut self)
        ensures
            final(self)@ == (GraphicsView {
                active: old(self)@.inactive,
                inactive: old(self)@.active,
                dirty: true,
                ..old(self)@
            }),
    {
        std::mem::swap(&mut self.active, &mut self.inactive);
        self.kitty_graphics_dirty = true;
    }

    /// Subtracts freed bytes, releasing the warn latch below the limit.
    fn deflate_total_bytes(&mut self, bytes: u128)
        ensures
            final(self)@ == deflated(old(self)@, bytes as int),
    {
        self.total_bytes = if bytes >= self.total_bytes as u128 {
            0
        } else {
            (self.total_bytes as u128 - bytes) as usize
        };
        if self.total_bytes < self.total_limit {
            self.over_budget_warned = false;
        }
        assert(self@ =~= deflated(old(self)@, bytes as int));
    }

    /// Starts tracking an atlas graphic.
    pub fn track_graphic(&mut self, graphic_id: GraphicId, bytes: usize, now: u64)
        requires
            old(self).total_bytes + bytes <= usize::MAX,
        ensures
            final(self)@ == (GraphicsView {
                timestamps: bound(old(self)@.timestamps, graphic_id.0, now),
                graphic_bytes: bound(old(self)@.graphic_bytes, graphic_id.0, bytes),
                total_bytes: old(self)@.total_bytes + bytes,
                ..old(self)@
            }),
    {
        self.image_timestamps.insert(graphic_id.0, now);
        self.graphic_bytes.insert(graphic_id.0, bytes);
        self.total_bytes = self.total_bytes + bytes;
    }

    /// The memory that a graphic takes: its pixels.
    pub fn calculate_graphic_bytes(graphic: &GraphicData) -> (bytes: usize)
        ensures
            bytes == graphic.pixels@.len(),
    {
        graphic.pixels.len()
    }

    /// Stops tracking an atlas graphic of a known size.
    pub fn untrack_graphic(&mut self, graphic_id: GraphicId, bytes: usize)
        ensures
            final(self)@ == deflated(
                GraphicsView {
                    timestamps: unbound(old(self)@.timestamps, graphic_id.0),
                    graphic_bytes: unbound(old(self)@.graphic_bytes, graphic_id.0),
                    ..old(self)@
                },
                bytes as int,
            ),
    {
        let _ = self.image_timestamps.remove(graphic_id.0);
        let _ = self.graphic_bytes.remove(graphic_id.0);
        self.deflate_total_bytes(bytes as u128);
    }

    /// Stops tracking an atlas graphic whose last cell was dropped. Nothing
    /// happens where it is not tracked any more.
    pub fn untrack_graphic_by_id(&mut self, graphic_id: GraphicId)
        ensures
            final(self)@ == untracked(old(self)@, graphic_id.0),
    {
        let removed: Option<usize> = self.graphic_bytes.remove(graphic_id.0);
        if let Some(bytes) = removed {
            let _ = self.image_timestamps.remove(graphic_id.0);
            self.deflate_total_bytes(bytes as u128);
        } else {
            proof {
                crate::table::lemma_has_key(old(self)@.graphic_bytes, graphic_id.0);
                crate::table::lemma_absent(old(self)@.graphic_bytes, graphic_id.0);
                assert(self@ =~= old(self)@);
            }
        }
    }

    /// Accounts for atlas removals that are still queued, without taking the
    /// queue. Doing it again changes nothing.
    pub fn untrack_queued_removals(&mut self)
        ensures
            final(self)@ == untracked_all(old(self)@, old(self)@.removals),
    {
        let mut i: usize = 0;
        let ghost removals = self@.removals;
        proof {
            assert(removals.take(0) =~= Seq::<GraphicRemoval>::empty());
        }
        while i < self.texture_operations.len()
            invariant
                i <= removals.len(),
                self@.removals == removals,
                self@ == untracked_all(old(self)@, removals.take(i as int)),
            decreases removals.len() - i,
        {
            let removal = self.texture_operations[i];
            proof {
                let after = removals.take(i as int + 1);
                assert(after.drop_last() =~= removals.take(i as int));
                assert(after.last() == removal);
            }
            if let GraphicRemoval::Atlas(id) = removal {
                self.untrack_graphic_by_id(id);
            }
            i = i + 1;
        }
        assert(removals.take(i as int) =~= removals);
    }

    /// Hands the queues to the renderer, or nothing where all are empty.
    pub fn take_queues(&mut self) -> (queues: Option<UpdateQueues>)
        ensures
            if old(self)@.removals.len() == 0 && old(self)@.pending.len() == 0 && old(
                self,
            )@.pending_images.len() == 0 {
                queues is None && final(self)@ == old(self)@
            } else {
                &&& queues matches Some(q)
                &&& q.pending@ == old(self)@.pending
                &&& q.pending_images@ == old(self)@.pending_images
                &&& q.remove_queue@ == old(self)@.removals
                &&& final(self)@ == (GraphicsView {
                    pending: Seq::empty(),
                    pending_images: Seq::empty(),
                    removals: Seq::empty(),
                    ..untracked_all(old(self)@, old(self)@.removals)
                })
            },
    {
        if self.texture_operations.len() == 0 && self.pending.len() == 0
            && self.pending_images.len() == 0 {
            return None;
        }
        self.untrack_queued_removals();
        proof {
            lemma_untracked_all_frame(old(self)@, old(self)@.removals);
        }
        let mut pending: Vec<GraphicData> = Vec::new();
        std::mem::swap(&mut pending, &mut self.pending);
        let mut pending_images: Vec<(u32, GraphicData)> = Vec::new();
        std::mem::swap(&mut pending_images, &mut self.pending_images);
        let mut remove_queue: Vec<GraphicRemoval> = Vec::new();
        std::mem::swap(&mut remove_queue, &mut self.texture_operations);
        Some(UpdateQueues { pending, pending_images, remove_queue })
    }
}

/// Forgetting atlas graphics leaves the queues alone.
proof fn lemma_untracked_all_frame(g: GraphicsView, removals: Seq<GraphicRemoval>)
    ensures
        untracked_all(g, removals).pending == g.pending,
        untracked_all(g, removals).pending_images == g.pending_images,
        untracked_all(g, removals).removals == g.removals,
    decreases removals.len(),
{
    if removals.len() > 0 {
        lemma_untracked_all_frame(g, removals.drop_last());
    }
}

/// After both screens were emptied.
pub open spec fn cleared(g: GraphicsView) -> GraphicsView {
    GraphicsView {
        active: empty_screen(),
        inactive: empty_screen(),
        removals: g.removals + removals_unless(g.active.images, Seq::empty()) + removals_unless(
            g.inactive.images,
            g.active.images,
        ),
        dirty: true,
        ..deflated(g, image_bytes(g.active.images) + image_bytes(g.inactive.images))
    }
}

/// Bytes of the images of a table.
fn total_image_bytes(images: &Table<StoredImage>) -> (bytes: u128)
    ensures
        bytes == image_bytes(images@),
{
    let mut bytes: u128 = 0;
    let mut i: usize = 0;
    while i < images.entries.len()
        invariant
            i <= images.entries.len(),
            bytes == image_bytes(images@.take(i as int)),
            bytes <= i * usize::MAX,
        decreases images.entries.len() - i,
    {
        proof {
            let after = images@.take(i as int + 1);
            assert(after.drop_last() =~= images@.take(i as int));
            assert(after.last() == images@[i as int]);
            assert((i + 1) * usize::MAX == i * usize::MAX + usize::MAX) by (nonlinear_arith);
            assert(i * usize::MAX <= usize::MAX * usize::MAX) by (nonlinear_arith)
                requires
                    i <= usize::MAX,
            ;
            lemma_usize_square();
        }
        bytes = bytes + images.entries[i].1.data.pixels.len() as u128;
        i = i + 1;
    }
    assert(images@.take(i as int) =~= images@);
    bytes
}

proof fn lemma_usize_square()
    ensures
        usize::MAX * usize::MAX + usize::MAX <= u128::MAX,
{
    assert(usize::MAX * usize::MAX <= 0xFFFF_FFFF_FFFF_FFFF * 0xFFFF_FFFF_FFFF_FFFF)
        by (nonlinear_arith)
        requires
            usize::MAX <= 0xFFFF_FFFF_FFFF_FFFF,
    ;
}

/// Appends removal orders for the images that the other screen does not hold.
fn push_removals(
    out: &mut Vec<GraphicRemoval>,
    images: &Table<StoredImage>,
    other: &Table<StoredImage>,
)
    ensures
        final(out)@ == old(out)@ + removals_unless(images@, other@),
{
    let mut i: usize = 0;
    assert(out@ =~= old(out)@ + removals_unless(images@.take(0), other@));
    while i < images.entries.len()
        invariant
            i <= images.entries.len(),
            out@ == old(out)@ + removals_unless(images@.take(i as int), other@),
        decreases images.entries.len() - i,
    {
        let id: u64 = images.entries[i].0;
        proof {
            let after = images@.take(i as int + 1);
            assert(after.drop_last() =~= images@.take(i as int));
            assert(after.last() == images@[i as int]);
        }
        let ghost before = out@;
        if !other.contains_key(id) {
            out.push(GraphicRemoval::Kitty(id as u32));
            assert(before.push(GraphicRemoval::Kitty(id as u32)) =~= old(out)@ + removals_unless(
                images@.take(i as int),
                other@,
            ).push(GraphicRemoval::Kitty(id as u32)));
        }
        i = i + 1;
    }
    assert(images@.take(i as int) =~= images@);
}

impl Graphics {
    /// Drops all kitty state on both screens, queueing each texture once.
    pub fn clear_all_kitty_state(&mut self)
        ensures
            final(self)@ == cleared(old(self)@),
    {
        let freed_active: u128 = total_image_bytes(&self.active.kitty_images);
        let freed_inactive: u128 = total_image_bytes(&self.inactive.kitty_images);
        let nothing: Table<StoredImage> = Table::new();
        push_removals(&mut self.texture_operations, &self.active.kitty_images, &nothing);
        push_removals(
            &mut self.texture_operations,
            &self.inactive.kitty_images,
            &self.active.kitty_images,
        );
        self.deflate_total_bytes(freed_active);
        self.deflate_total_bytes(freed_inactive);
        self.active = KittyScreenState::new();
        self.inactive = KittyScreenState::new();
        self.kitty_graphics_dirty = true;
        assert(self@ =~= cleared(old(self)@));
    }

    /// The image with an id on the shown screen.
    pub fn get_kitty_image(&self, image_id: u32) -> (image: Option<&StoredImage>)
        ensures
            match lookup(self@.active.images, image_id as u64) {
                Some(expected) => image matches Some(i) && *i == expected,
                None => image is None,
            },
    {
        self.active.kitty_images.get(image_id as u64)
    }

    /// The image most recently sent with a number on the shown screen.
    pub fn get_kitty_image_by_number(&self, image_number: u32) -> (image: Option<&StoredImage>)
        ensures
            match lookup(self@.active.numbers, image_number as u64) {
                Some(id) => match lookup(self@.active.images, id as u64) {
                    Some(expected) => image matches Some(i) && *i == expected,
                    None => image is None,
                },
                None => image is None,
            },
    {
        match self.active.kitty_image_numbers.get(image_number as u64) {
            Some(id) => self.active.kitty_images.get(*id as u64),
            None => None,
        }
    }

    /// Deletes images of the shown screen. A texture that the other screen
    /// still needs is not queued for removal.
    pub fn delete_kitty_images(&mut self, predicate: impl Fn(&u32, &StoredImage) -> bool)
        requires
            forall|id: &u32, image: &StoredImage| call_requires(predicate, (id, image)),
        ensures
            exists|hit: Seq<bool>|
                {
                    &&& hit.len() == old(self)@.active.images.len()
                    &&& forall|i: int|
                        0 <= i < hit.len() ==> call_ensures(
                            predicate,
                            (
                                &(old(self)@.active.images[i].0 as u32),
                                &old(self)@.active.images[i].1,
                            ),
                            #[trigger] hit[i],
                        )
                    &&& final(self)@ == #[trigger] deleted(old(self)@, hit)
                },
    {
        let ghost images = self@.active.images;
        let mut hits: Vec<bool> = Vec::new();
        let mut i: usize = 0;
        while i < self.active.kitty_images.entries.len()
            invariant
                i <= images.len(),
                self@.active.images == images,
                self@ == old(self)@,
                hits@.len() == i,
                forall|id: &u32, image: &StoredImage| call_requires(predicate, (id, image)),
                forall|j: int|
                    0 <= j < hits@.len() ==> call_ensures(
                        predicate,
                        (&(images[j].0 as u32), &images[j].1),
                        #[trigger] hits@[j],
                    ),
            decreases images.len() - i,
        {
            let entry = &self.active.kitty_images.entries[i];
            let id: u32 = entry.0 as u32;
            let hit: bool = predicate(&id, &entry.1);
            hits.push(hit);
            i = i + 1;
        }
        self.drop_images(&hits);
        assert(self@ == deleted(old(self)@, hits@));
    }

    fn drop_images(&mut self, hits: &Vec<bool>)
        requires
            hits@.len() == old(self)@.active.images.len(),
        ensures
            final(self)@ == deleted(old(self)@, hits@),
    {
        let ghost before = self@.active.images;
        let mut old_images: Table<StoredImage> = Table::new();
        std::mem::swap(&mut old_images, &mut self.active.kitty_images);
        let mut images: Table<StoredImage> = Table::new();
        let mut gone: Table<StoredImage> = Table::new();
        let mut i: usize = hits.len();
        let ghost mut rest_images = Seq::<(u64, StoredImage)>::empty();
        let ghost mut rest_gone = Seq::<(u64, StoredImage)>::empty();
        proof {
            assert(before.take(i as int) =~= before);
            assert(hits@.take(i as int) =~= hits@);
            assert(chosen(before, hits@, false) + rest_images =~= chosen(before, hits@, false));
            assert(chosen(before, hits@, true) + rest_gone =~= chosen(before, hits@, true));
            assert(rest_images.reverse() =~= images@);
            assert(rest_gone.reverse() =~= gone@);
        }
        while i > 0
            invariant
                i <= hits@.len(),
                hits@.len() == before.len(),
                old_images@ == before.take(i as int),
                chosen(before, hits@, false) == chosen(
                    before.take(i as int),
                    hits@.take(i as int),
                    false,
                ) + rest_images,
                chosen(before, hits@, true) == chosen(
                    before.take(i as int),
                    hits@.take(i as int),
                    true,
                ) + rest_gone,
                images@ == rest_images.reverse(),
                gone@ == rest_gone.reverse(),
            decreases i,
        {
            let ghost head = before.take(i as int);
            let ghost hit_head = hits@.take(i as int);
            i = i - 1;
            proof {
                assert(head.drop_last() =~= before.take(i as int));
                assert(hit_head.drop_last() =~= hits@.take(i as int));
                assert(head.last() == before[i as int]);
                assert(hit_head.last() == hits@[i as int]);
            }
            if let Some(entry) = old_images.entries.pop() {
                proof {
                    assert(old_images@ =~= before.take(i as int));
                    assert(entry == before[i as int]);
                }
                if hits[i] {
                    proof {
                        let more = seq![entry] + rest_gone;
                        assert(chosen(before.take(i as int), hits@.take(i as int), true).push(entry)
                            + rest_gone =~= chosen(
                            before.take(i as int),
                            hits@.take(i as int),
                            true,
                        ) + more);
                        assert(more.reverse() =~= rest_gone.reverse().push(entry));
                        rest_gone = more;
                    }
                    gone.entries.push(entry);
                } else {
                    proof {
                        let more = seq![entry] + rest_images;
                        assert(chosen(before.take(i as int), hits@.take(i as int), false).push(
                            entry,
                        ) + rest_images =~= chosen(
                            before.take(i as int),
                            hits@.take(i as int),
                            false,
                        ) + more);
                        assert(more.reverse() =~= rest_images.reverse().push(entry));
                        rest_images = more;
                    }
                    images.entries.push(entry);
                }
            }
        }
        proof {
            assert(chosen(before.take(0), hits@.take(0), false) + rest_images =~= rest_images);
            assert(chosen(before.take(0), hits@.take(0), true) + rest_gone =~= rest_gone);
        }
        let images = reversed(images);
        let gone = reversed(gone);
        proof {
            assert(rest_images.reverse().reverse() =~= rest_images);
            assert(rest_gone.reverse().reverse() =~= rest_gone);
            assert(images@ == chosen(before, hits@, false));
            assert(gone@ == chosen(before, hits@, true));
        }
        self.active.kitty_images = images;
        if gone.entries.len() == 0 {
            proof {
                lemma_chosen_all(before, hits@);
                assert(self@ =~= old(self)@);
            }
            return ;
        }
        self.kitty_graphics_dirty = true;
        let freed: u128 = total_image_bytes(&gone);
        push_removals(&mut self.texture_operations, &gone, &self.inactive.kitty_images);
        let mut numbers: Table<u32> = Table::new();
        std::mem::swap(&mut numbers, &mut self.active.kitty_image_numbers);
        self.active.kitty_image_numbers = numbers_backed(numbers, &self.active.kitty_images);
        self.deflate_total_bytes(freed);
        assert(self@ =~= deleted(old(self)@, hits@));
    }
}

/// A table in the opposite order.
fn reversed(table: Table<StoredImage>) -> (out: Table<StoredImage>)
    ensures
        out@ == table@.reverse(),
{
    let mut table = table;
    let ghost all = table@;
    let mut out: Table<StoredImage> = Table::new();
    assert(all.take(all.len() as int) =~= all);
    while table.entries.len() > 0
        invariant
            table@ == all.take(table@.len() as int),
            table@.len() <= all.len(),
            out@ == all.skip(table@.len() as int).reverse(),
        decreases table@.len(),
    {
        let ghost n = table@.len();
        if let Some(entry) = table.entries.pop() {
            proof {
                assert(entry == all[n - 1]);
                assert(table@ =~= all.take(n - 1));
                assert(all.skip(n - 1).reverse() =~= all.skip(n as int).reverse().push(entry));
            }
            out.entries.push(entry);
        }
    }
    assert(all.skip(0) =~= all);
    out
}

/// Where nothing is hit everything is kept.
proof fn lemma_chosen_all(images: Seq<(u64, StoredImage)>, hit: Seq<bool>)
    requires
        hit.len() == images.len(),
        chosen(images, hit, true).len() == 0,
    ensures
        chosen(images, hit, false) == images,
    decreases images.len(),
{
    if images.len() > 0 {
        lemma_chosen_all(images.drop_last(), hit.drop_last());
        assert(images.drop_last().push(images.last()) =~= images);
    } else {
        assert(chosen(images, hit, false) =~= images);
    }
}

/// The image ids of overlay placements, in order.
pub open spec fn placed_ids(placements: Seq<KittyPlacement>) -> Seq<u64> {
    Seq::new(placements.len(), |i: int| placements[i].image_id as u64)
}

/// After an image was put into the shown screen.
pub open spec fn stored(
    g: GraphicsView,
    image_id: u32,
    number: Option<u32>,
    image: StoredImage,
) -> GraphicsView {
    let replaced = match lookup(g.active.images, image_id as u64) {
        Some(old_image) => deflated(g, old_image.data.pixels@.len() as int),
        None => g,
    };
    GraphicsView {
        active: ScreenView {
            images: bound(g.active.images, image_id as u64, image),
            numbers: match number {
                Some(n) => bound(g.active.numbers, n as u64, image_id),
                None => g.active.numbers,
            },
            ..g.active
        },
        total_bytes: replaced.total_bytes + image.data.pixels@.len(),
        dirty: true,
        ..replaced
    }
}

/// Eviction touches neither the byte total nor the limit before it is settled.
proof fn lemma_evicted_all_frame(g: GraphicsView, gone: Seq<Candidate>)
    ensures
        evicted_all(g, gone).total_bytes == g.total_bytes,
        evicted_all(g, gone).total_limit == g.total_limit,
        evicted_all(g, gone).warned == g.warned,
    decreases gone.len(),
{
    if gone.len() > 0 {
        lemma_evicted_all_frame(g, gone.drop_last());
    }
}

proof fn lemma_candidate_bytes_nonneg(order: Seq<Candidate>)
    ensures
        candidate_bytes(order) >= 0,
    decreases order.len(),
{
    if order.len() > 0 {
        lemma_candidate_bytes_nonneg(order.drop_last());
    }
}

impl Graphics {
    /// All images that may be evicted.
    fn collect_candidates(&self, used_ids: &Vec<u64>) -> (cands: Vec<Candidate>)
        ensures
            cands@ == candidates(self@, used_ids@),
    {
        let mut cands: Vec<Candidate> = Vec::new();
        let mut i: usize = 0;
        while i < self.pending.len()
            invariant
                i <= self.pending.len(),
                cands@ == pending_candidates(
                    self@.pending.take(i as int),
                    self@.timestamps,
                    used_ids@,
                ),
            decreases self.pending.len() - i,
        {
            let graphic = &self.pending[i];
            let id: u64 = graphic.id.0;
            proof {
                let after = self@.pending.take(i as int + 1);
                assert(after.drop_last() =~= self@.pending.take(i as int));
                assert(after.last() == *graphic);
            }
            if let Some(time) = self.image_timestamps.get(id) {
                cands.push(
                    Candidate {
                        id,
                        time: *time,
                        tier: if has_id(used_ids, id) {
                            2
                        } else {
                            1
                        },
                        bytes: graphic.pixels.len(),
                        source: CandidateSource::Pending,
                    },
                );
            }
            i = i + 1;
        }
        assert(self@.pending.take(i as int) =~= self@.pending);
        let ghost pending = cands@;
        let mut j: usize = 0;
        while j < self.active.kitty_images.entries.len()
            invariant
                j <= self.active.kitty_images.entries.len(),
                cands@ =~= pending + Seq::new(
                    j as nat,
                    |k: int| active_candidate(self@.active.images[k], used_ids@),
                ),
            decreases self.active.kitty_images.entries.len() - j,
        {
            let entry = &self.active.kitty_images.entries[j];
            cands.push(
                Candidate {
                    id: entry.0,
                    time: entry.1.transmission_time,
                    tier: if has_id(used_ids, entry.0) {
                        2
                    } else {
                        1
                    },
                    bytes: entry.1.data.pixels.len(),
                    source: CandidateSource::ActiveKitty,
                },
            );
            j = j + 1;
        }
        let ghost shown = cands@;
        let mut k: usize = 0;
        while k < self.inactive.kitty_images.entries.len()
            invariant
                k <= self.inactive.kitty_images.entries.len(),
                cands@ =~= shown + Seq::new(
                    k as nat,
                    |m: int| inactive_candidate(self@.inactive.images[m]),
                ),
            decreases self.inactive.kitty_images.entries.len() - k,
        {
            let entry = &self.inactive.kitty_images.entries[k];
            cands.push(
                Candidate {
                    id: entry.0,
                    time: entry.1.transmission_time,
                    tier: 0,
                    bytes: entry.1.data.pixels.len(),
                    source: CandidateSource::InactiveKitty,
                },
            );
            k = k + 1;
        }
        cands
    }

    /// Removes one candidate from where it lives.
    fn evict_one(&mut self, c: Candidate)
        ensures
            final(self)@ == evicted_one(old(self)@, c),
    {
        match c.source {
            CandidateSource::Pending => {
                let mut pending: Vec<GraphicData> = Vec::new();
                std::mem::swap(&mut pending, &mut self.pending);
                self.pending = pending_without(pending, c.id);
                let _ = self.graphic_bytes.remove(c.id);
                self.texture_operations.push(GraphicRemoval::Atlas(GraphicId(c.id)));
            },
            CandidateSource::ActiveKitty => {
                let _ = self.active.kitty_images.remove(c.id);
                let mut numbers: Table<u32> = Table::new();
                std::mem::swap(&mut numbers, &mut self.active.kitty_image_numbers);
                self.active.kitty_image_numbers = numbers_without(numbers, c.id);
                self.kitty_graphics_dirty = true;
                if !self.inactive.kitty_images.contains_key(c.id) {
                    self.texture_operations.push(GraphicRemoval::Kitty(c.id as u32));
                }
            },
            CandidateSource::InactiveKitty => {
                let _ = self.inactive.kitty_images.remove(c.id);
                let mut numbers: Table<u32> = Table::new();
                std::mem::swap(&mut numbers, &mut self.inactive.kitty_image_numbers);
                self.inactive.kitty_image_numbers = numbers_without(numbers, c.id);
                if !self.active.kitty_images.contains_key(c.id) {
                    self.texture_operations.push(GraphicRemoval::Kitty(c.id as u32));
                }
            },
        }
        let _ = self.image_timestamps.remove(c.id);
        assert(self@ =~= evicted_one(old(self)@, c));
    }

    /// Makes room for `required_bytes` by evicting images: those of the screen
    /// that is not shown first, then unused ones, then used ones, the oldest
    /// first in each tier. Tells whether enough was freed.
    pub fn evict_images(&mut self, required_bytes: usize, used_ids: &Vec<u64>) -> (enough: bool)
        ensures
            is_eviction(
                old(self)@,
                required_bytes as int,
                used_ids@,
                final(self)@,
                enough,
            ),
            final(self)@.total_bytes <= old(self)@.total_bytes,
            final(self)@.total_limit == old(self)@.total_limit,
    {
        let wanted: u128 = self.total_bytes as u128 + required_bytes as u128;
        if wanted <= self.total_limit as u128 {
            return true;
        }
        let need: u128 = wanted - self.total_limit as u128;
        let ghost before = self@;
        let cands = self.collect_candidates(used_ids);
        let order = sorted_candidates(&cands);
        if order.len() == 0 {
            return false;
        }
        let mut freed: u128 = 0;
        let mut n: usize = 0;
        proof {
            assert(order@.take(0) =~= Seq::<Candidate>::empty());
        }
        while n < order.len() && freed < need
            invariant
                n <= order.len(),
                order@ == eviction_order(candidates(before, used_ids@)),
                self@ == evicted_all(before, order@.take(n as int)),
                freed == candidate_bytes(order@.take(n as int)),
                need == excess(before, required_bytes as int),
                freed < need + usize::MAX,
                need <= 2 * usize::MAX,
                forall|k: int|
                    0 <= k < n ==> #[trigger] candidate_bytes(order@.take(k)) < need,
            decreases order.len() - n,
        {
            let c = order[n];
            proof {
                let after = order@.take(n as int + 1);
                assert(after.drop_last() =~= order@.take(n as int));
                assert(after.last() == c);
            }
            self.evict_one(c);
            freed = freed + c.bytes as u128;
            n = n + 1;
        }
        proof {
            lemma_evicted_all_frame(before, order@.take(n as int));
            lemma_candidate_bytes_nonneg(order@.take(n as int));
        }
        let shown = placements_backed(&self.active.kitty_placements, &self.active.kitty_images);
        self.active.kitty_placements = shown;
        let hidden = placements_backed(
            &self.inactive.kitty_placements,
            &self.inactive.kitty_images,
        );
        self.inactive.kitty_placements = hidden;
        assert(self@ =~= swept(evicted_all(before, order@.take(n as int))));
        self.deflate_total_bytes(freed);
        assert(is_eviction_count(order@, need as int, n as int));
        freed >= need
    }

    /// Keeps a kitty image for placement, evicting others where the limit would
    /// be exceeded. Images with a placement, and the image itself, go last.
    pub fn store_kitty_image(
        &mut self,
        image_id: u32,
        image_number: Option<u32>,
        data: GraphicData,
        now: u64,
    )
        requires
            old(self).total_bytes + data.pixels@.len() <= usize::MAX,
        ensures
            exists|room: GraphicsView, enough: bool|
                {
                    &&& #[trigger] is_eviction(
                        old(self)@,
                        data.pixels@.len() as int,
                        placed_ids(old(self)@.active.placements).push(image_id as u64),
                        room,
                        enough,
                    )
                    &&& final(self)@ == stored(
                        room,
                        image_id,
                        image_number,
                        StoredImage {
                            data: GraphicData { transmit_time: now, ..data },
                            transmission_time: now,
                        },
                    )
                },
    {
        let mut data = data;
        data.transmit_time = now;
        let new_bytes: usize = data.pixels.len();
        let mut used: Vec<u64> = Vec::new();
        let mut i: usize = 0;
        while i < self.active.kitty_placements.len()
            invariant
                i <= self.active.kitty_placements.len(),
                used@ =~= placed_ids(self@.active.placements).take(i as int),
            decreases self.active.kitty_placements.len() - i,
        {
            used.push(self.active.kitty_placements[i].image_id as u64);
            i = i + 1;
        }
        used.push(image_id as u64);
        assert(used@ =~= placed_ids(self@.active.placements).push(image_id as u64));
        let enough: bool = self.evict_images(new_bytes, &used);
        let ghost room = self@;
        assert(is_eviction(old(self)@, new_bytes as int, used@, room, enough));
        let replaced: Option<usize> = match self.active.kitty_images.get(image_id as u64) {
            Some(old_image) => Some(old_image.data.pixels.len()),
            None => None,
        };
        if let Some(bytes) = replaced {
            self.deflate_total_bytes(bytes as u128);
        }
        self.active.kitty_images.insert(
            image_id as u64,
            StoredImage { data, transmission_time: now },
        );
        self.total_bytes = self.total_bytes + new_bytes;
        self.kitty_graphics_dirty = true;
        if let Some(number) = image_number {
            self.active.kitty_image_numbers.insert(number as u64, image_id);
        }
        assert(self@ =~= stored(
            room,
            image_id,
            image_number,
            StoredImage { data, transmission_time: now },
        ));
    }

    /// Notes that an atlas graphic was placed in the grid.
    pub fn register_placed_texture(&mut self, graphic_id: GraphicId)
        ensures
            final(self)@ == (GraphicsView {
                placed: if old(self)@.placed.contains(graphic_id.0) {
                    old(self)@.placed
                } else {
                    old(self)@.placed.push(graphic_id.0)
                },
                ..old(self)@
            }),
    {
        if !has_id(&self.placed_textures, graphic_id.0) {
            self.placed_textures.push(graphic_id.0);
        }
        assert(self@ =~= (GraphicsView { placed: self@.placed, ..old(self)@ }));
    }

    /// The ids of graphics that are displayed: the placed atlas graphics that
    /// `live` still reports as referenced, and the images with an overlay
    /// placement. Placed graphics that are not referenced any more are
    /// forgotten.
    pub fn collect_active_graphic_ids(&mut self, live: &Vec<u64>) -> (active: Vec<u64>)
        ensures
            ({
                let placed = old(self)@.placed.filter(|id: u64| live@.contains(id));
                &&& active@ == placed + placed_ids(old(self)@.active.placements)
                &&& final(self)@ == (GraphicsView { placed, ..old(self)@ })
            }),
    {
        let mut kept: Vec<u64> = Vec::new();
        let mut active: Vec<u64> = Vec::new();
        let mut i: usize = 0;
        let ghost wanted = |id: u64| live@.contains(id);
        while i < self.placed_textures.len()
            invariant
                i <= self.placed_textures.len(),
                wanted == (|id: u64| live@.contains(id)),
                kept@ == self@.placed.take(i as int).filter(wanted),
                active@ == kept@,
            decreases self.placed_textures.len() - i,
        {
            let id: u64 = self.placed_textures[i];
            proof {
                lemma_filter_step(self@.placed, wanted, i as int);
            }
            if has_id(live, id) {
                kept.push(id);
                active.push(id);
            }
            i = i + 1;
        }
        assert(self@.placed.take(i as int) =~= self@.placed);
        self.placed_textures = kept;
        let ghost placed = self@.placed;
        let mut j: usize = 0;
        while j < self.active.kitty_placements.len()
            invariant
                j <= self.active.kitty_placements.len(),
                active@ =~= placed + placed_ids(self@.active.placements).take(j as int),
            decreases self.active.kitty_placements.len() - j,
        {
            active.push(self.active.kitty_placements[j].image_id as u64);
            j = j + 1;
        }
        assert(self@ =~= (GraphicsView { placed, ..old(self)@ }));
        active
    }
}

/// The graphics with other ids, in order.
fn pending_without(pending: Vec<GraphicData>, id: u64) -> (kept: Vec<GraphicData>)
    ensures
        kept@ == pending@.filter(|p: GraphicData| p.id.0 != id),
{
    let ghost all = pending@;
    let ghost wanted = |p: GraphicData| p.id.0 != id;
    let mut kept: Vec<GraphicData> = Vec::new();
    for p in it: pending
        invariant
            it.seq() == all,
            wanted == (|p: GraphicData| p.id.0 != id),
            kept@ == all.take(it.index() as int).filter(wanted),
    {
        proof {
            lemma_filter_step(all, wanted, it.index() as int);
        }
        if p.id.0 != id {
            kept.push(p);
        }
    }
    assert(all.take(all.len() as int) =~= all);
    kept
}

/// The candidates in the order of eviction.
fn sorted_candidates(cands: &Vec<Candidate>) -> (order: Vec<Candidate>)
    ensures
        order@ == eviction_order(cands@),
{
    let mut order: Vec<Candidate> = Vec::new();
    let mut i: usize = 0;
    while i < cands.len()
        invariant
            i <= cands.len(),
            order@ == eviction_order(cands@.take(i as int)),
        decreases cands.len() - i,
    {
        proof {
            let after = cands@.take(i as int + 1);
            assert(after.drop_last() =~= cands@.take(i as int));
            assert(after.last() == cands@[i as int]);
        }
        insert_candidate(&mut order, cands[i]);
        i = i + 1;
    }
    assert(cands@.take(i as int) =~= cands@);
    order
}

} // verus!
