use rio_sessions::graphics::{ColorType, GraphicData, GraphicId, GraphicRemoval, Graphics};

#[test]
fn graphics_check_opaque_region() {
    let graphic = GraphicData {
        id: GraphicId::new(1),
        width: 10,
        height: 10,
        color_type: ColorType::Rgb,
        pixels: vec![255; 10 * 10 * 3],
        is_opaque: true,
        display_width: None,
        display_height: None,
        transmit_time: 0,
    };

    assert!(graphic.is_filled(1, 1, 3, 3));
    assert!(!graphic.is_filled(8, 8, 10, 10));

    let pixels = {
        // Put a transparent 3x3 box inside the picture.
        let mut data = vec![255; 10 * 10 * 4];
        for y in 3..6 {
            let offset = y * 10 * 4;
            data[offset..offset + 3 * 4].fill(0);
        }
        data
    };

    let graphic = GraphicData {
        id: GraphicId::new(1),
        pixels,
        width: 10,
        height: 10,
        color_type: ColorType::Rgba,
        is_opaque: false,
        display_width: None,
        display_height: None,
        transmit_time: 0,
    };

    assert!(graphic.is_filled(0, 0, 3, 3));
    assert!(!graphic.is_filled(1, 1, 4, 4));
}

fn test_kitty_pixels(bytes: usize) -> GraphicData {
    GraphicData {
        id: GraphicId::new(0),
        width: 1,
        height: 1,
        color_type: ColorType::Rgba,
        pixels: vec![255u8; bytes],
        is_opaque: true,
        display_width: None,
        display_height: None,
        transmit_time: 0,
    }
}

#[test]
fn test_delete_kitty_images_deflates_and_queues_removal() {
    let mut graphics = Graphics::new();
    graphics.store_kitty_image(1, Some(9), test_kitty_pixels(64), 1);
    graphics.store_kitty_image(2, None, test_kitty_pixels(32), 2);
    assert_eq!(graphics.total_bytes, 96);

    graphics.delete_kitty_images(|id, _| *id == 1);

    assert_eq!(graphics.total_bytes, 32);
    assert!(graphics.active.kitty_image_numbers.is_empty());
    assert_eq!(
        graphics.texture_operations.as_slice(),
        &[GraphicRemoval::Kitty(1)]
    );
}

#[test]
fn test_delete_kitty_image_shared_with_inactive_screen() {
    let mut graphics = Graphics::new();
    graphics.store_kitty_image(1, None, test_kitty_pixels(64), 3);
    graphics.swap_kitty_screen_state();
    graphics.store_kitty_image(1, None, test_kitty_pixels(32), 4);
    assert_eq!(graphics.total_bytes, 96);

    graphics.delete_kitty_images(|_, _| true);

    // Only the active copy's bytes deflate; the inactive screen still
    // owns the window-level texture, so no removal may be queued.
    assert_eq!(graphics.total_bytes, 64);
    assert!(graphics.texture_operations.is_empty());
}

#[test]
fn test_clear_all_kitty_state_deflates_and_queues_once() {
    let mut graphics = Graphics::new();
    graphics.store_kitty_image(1, None, test_kitty_pixels(64), 5);
    graphics.swap_kitty_screen_state();
    graphics.store_kitty_image(1, None, test_kitty_pixels(32), 6);
    graphics.store_kitty_image(2, None, test_kitty_pixels(16), 7);
    assert_eq!(graphics.total_bytes, 112);

    graphics.clear_all_kitty_state();

    assert_eq!(graphics.total_bytes, 0);
    assert!(graphics.active.kitty_images.is_empty());
    assert!(graphics.inactive.kitty_images.is_empty());
    let ops = &graphics.texture_operations;
    let mut ids: Vec<u32> = ops
        .iter()
        .map(|removal| match removal {
            GraphicRemoval::Kitty(id) => *id,
            other => panic!("unexpected removal {other:?}"),
        })
        .collect();
    ids.sort_unstable();
    assert_eq!(ids, [1, 2], "each id queued exactly once across screens");
}

#[test]
fn test_eviction_of_shared_id_queues_single_removal() {
    let mut graphics = Graphics {
        total_limit: 100,
        ..Graphics::new()
    };
    graphics.store_kitty_image(1, None, test_kitty_pixels(60), 8);
    graphics.swap_kitty_screen_state();
    graphics.store_kitty_image(1, None, test_kitty_pixels(40), 9);
    assert_eq!(graphics.total_bytes, 100);

    // Freeing 80 bytes forces both copies out; the shared window-level
    // texture must be queued exactly once, after neither screen holds it.
    let used: Vec<u64> = Vec::new();
    assert!(graphics.evict_images(80, &used));

    assert_eq!(graphics.total_bytes, 0);
    assert_eq!(
        graphics.texture_operations.as_slice(),
        &[GraphicRemoval::Kitty(1)]
    );
}

#[test]
fn test_over_budget_warn_latch_releases_below_budget() {
    let mut graphics = Graphics {
        total_limit: 100,
        ..Graphics::new()
    };
    graphics.store_kitty_image(1, None, test_kitty_pixels(80), 10);
    graphics.over_budget_warned = true;

    graphics.delete_kitty_images(|_, _| true);

    assert_eq!(graphics.total_bytes, 0);
    assert!(!graphics.over_budget_warned);
}

#[test]
fn test_graphics_memory_tracking() {
    let mut graphics = Graphics::new();

    // Create a small graphic (100x100 RGBA = 40,000 bytes)
    let pixels = vec![255u8; 100 * 100 * 4];
    let graphic = GraphicData {
        id: GraphicId::new(1),
        width: 100,
        height: 100,
        color_type: ColorType::Rgba,
        pixels,
        is_opaque: true,
        display_width: None,
        display_height: None,
        transmit_time: 0,
    };

    let bytes = Graphics::calculate_graphic_bytes(&graphic);
    assert_eq!(bytes, 40_000);

    // Track the graphic
    graphics.track_graphic(GraphicId::new(1), bytes, 10);
    assert_eq!(graphics.total_bytes, 40_000);
    assert!(graphics.image_timestamps.contains_key(GraphicId::new(1).get()));

    // Untrack the graphic
    graphics.untrack_graphic(GraphicId::new(1), bytes);
    assert_eq!(graphics.total_bytes, 0);
    assert!(!graphics.image_timestamps.contains_key(GraphicId::new(1).get()));
}

#[test]
fn test_graphics_eviction_unused_first() {
    let mut graphics = Graphics {
        total_limit: 100_000, // 100KB limit for testing
        ..Graphics::new()
    };

    // Add 3 graphics (50KB each = 150KB total, will exceed limit)
    let mut used_ids: Vec<u64> = Vec::new();

    // Graphic 1: 50KB, used
    let pixels1 = vec![255u8; 50_000];
    let graphic1 = GraphicData {
        id: GraphicId::new(1),
        width: 100,
        height: 125,
        color_type: ColorType::Rgba,
        pixels: pixels1.clone(),
        is_opaque: true,
        display_width: None,
        display_height: None,
        transmit_time: 0,
    };
    graphics.pending.push(graphic1);
    graphics.track_graphic(GraphicId::new(1), pixels1.len(), 10);
    used_ids.push(1); // Mark as used

    // Graphic 2: 50KB, unused (should be evicted first)
    let pixels2 = vec![255u8; 50_000];
    let graphic2 = GraphicData {
        id: GraphicId::new(2),
        width: 100,
        height: 125,
        color_type: ColorType::Rgba,
        pixels: pixels2.clone(),
        is_opaque: true,
        display_width: None,
        display_height: None,
        transmit_time: 0,
    };
    graphics.pending.push(graphic2);
    graphics.track_graphic(GraphicId::new(2), pixels2.len(), 20);
    // Not marked as used

    // Try to add Graphic 3 (will trigger eviction)
    let pixels3_len = 50_000;
    let success = graphics.evict_images(pixels3_len, &used_ids);

    assert!(success, "Eviction should succeed");
    // Graphic 2 (unused) should be evicted, Graphic 1 (used) should remain
    assert_eq!(graphics.pending.len(), 1);
    assert_eq!(graphics.pending[0].id, GraphicId::new(1));
    assert!(graphics.image_timestamps.contains_key(GraphicId::new(1).get()));
    assert!(!graphics.image_timestamps.contains_key(GraphicId::new(2).get()));
}

#[test]
fn test_graphics_eviction_oldest_first() {
    let mut graphics = Graphics {
        total_limit: 100_000, // 100KB limit
        ..Graphics::new()
    };

    let used_ids: Vec<u64> = Vec::new(); // No images used

    // Add 3 graphics, all unused
    // Graphic 1: oldest
    let pixels1 = vec![255u8; 50_000];
    let graphic1 = GraphicData {
        id: GraphicId::new(1),
        width: 100,
        height: 125,
        color_type: ColorType::Rgba,
        pixels: pixels1.clone(),
        is_opaque: true,
        display_width: None,
        display_height: None,
        transmit_time: 0,
    };
    graphics.pending.push(graphic1);
    graphics.track_graphic(GraphicId::new(1), pixels1.len(), 10);

    // Graphic 2: middle
    let pixels2 = vec![255u8; 50_000];
    let graphic2 = GraphicData {
        id: GraphicId::new(2),
        width: 100,
        height: 125,
        color_type: ColorType::Rgba,
        pixels: pixels2.clone(),
        is_opaque: true,
        display_width: None,
        display_height: None,
        transmit_time: 0,
    };
    graphics.pending.push(graphic2);
    graphics.track_graphic(GraphicId::new(2), pixels2.len(), 20);

    // Try to add Graphic 3 (will trigger eviction, oldest should go first)
    let pixels3_len = 50_000;
    let success = graphics.evict_images(pixels3_len, &used_ids);

    assert!(success);
    // Graphic 1 (oldest) should be evicted
    assert_eq!(graphics.pending.len(), 1);
    assert_eq!(graphics.pending[0].id, GraphicId::new(2));
}

#[test]
fn test_graphics_eviction_fails_when_not_enough_space() {
    let mut graphics = Graphics {
        total_limit: 100_000, // 100KB limit
        ..Graphics::new()
    };

    let mut used_ids: Vec<u64> = Vec::new();

    // Add one 90KB graphic that's in use
    let pixels1 = vec![255u8; 90_000];
    let graphic1 = GraphicData {
        id: GraphicId::new(1),
        width: 150,
        height: 150,
        color_type: ColorType::Rgba,
        pixels: pixels1.clone(),
        is_opaque: true,
        display_width: None,
        display_height: None,
        transmit_time: 0,
    };
    graphics.pending.push(graphic1);
    graphics.track_graphic(GraphicId::new(1), pixels1.len(), 10);
    used_ids.push(1); // Mark as used

    // Try to add another 90KB (total would be 180KB, exceeds limit)
    // Will evict the first one even though it's in use (per kitty spec)
    let pixels2_len = 90_000;
    let success = graphics.evict_images(pixels2_len, &used_ids);

    assert!(
        success,
        "Eviction should succeed by evicting used images if necessary"
    );
    // The used image should be evicted
    assert_eq!(graphics.pending.len(), 0);
}

#[test]
fn test_graphics_no_eviction_when_under_limit() {
    let mut graphics = Graphics {
        total_limit: 200_000, // 200KB limit
        ..Graphics::new()
    };

    let used_ids: Vec<u64> = Vec::new();

    // Add one 50KB graphic
    let pixels1 = vec![255u8; 50_000];
    let graphic1 = GraphicData {
        id: GraphicId::new(1),
        width: 100,
        height: 125,
        color_type: ColorType::Rgba,
        pixels: pixels1.clone(),
        is_opaque: true,
        display_width: None,
        display_height: None,
        transmit_time: 0,
    };
    graphics.pending.push(graphic1);
    graphics.track_graphic(GraphicId::new(1), pixels1.len(), 10);

    // Try to add another 50KB (total 100KB, well under limit)
    let pixels2_len = 50_000;
    let success = graphics.evict_images(pixels2_len, &used_ids);

    assert!(success);
    // No eviction should occur
    assert_eq!(graphics.pending.len(), 1);
    assert_eq!(graphics.total_bytes, 50_000);
}

#[test]
fn ids_count_up_from_one() {
    let mut g = Graphics::new();
    assert_eq!(g.next_id(), GraphicId::new(1));
    assert_eq!(g.next_id(), GraphicId::new(2));
    let first = g.allocate_internal_placement_id();
    assert_eq!(first, 0x8000_0000);
    assert_eq!(g.allocate_internal_placement_id(), first + 1);
}

#[test]
fn an_image_is_found_by_its_number() {
    let mut g = Graphics::new();
    g.store_kitty_image(4, Some(9), test_kitty_pixels(8), 1);
    g.store_kitty_image(5, Some(9), test_kitty_pixels(16), 2);
    assert_eq!(g.get_kitty_image(4).unwrap().data.pixels.len(), 8);
    assert_eq!(g.get_kitty_image_by_number(9).unwrap().data.pixels.len(), 16);
    assert!(g.get_kitty_image(6).is_none());
    assert!(g.get_kitty_image_by_number(1).is_none());
}

#[test]
fn a_screen_comes_back_as_it_was() {
    let mut g = Graphics::new();
    g.store_kitty_image(4, None, test_kitty_pixels(8), 1);
    g.swap_kitty_screen_state();
    assert!(g.get_kitty_image(4).is_none());
    g.swap_kitty_screen_state();
    assert!(g.get_kitty_image(4).is_some());
    assert!(g.kitty_graphics_dirty);
}

#[test]
fn queues_are_handed_over_once() {
    let mut g = Graphics::new();
    assert!(!g.has_pending_updates());
    assert!(g.take_queues().is_none());
    g.pending.push(test_kitty_pixels(8));
    g.texture_operations.push(GraphicRemoval::Kitty(3));
    assert!(g.has_pending_updates());
    let queues = g.take_queues().unwrap();
    assert_eq!(queues.pending.len(), 1);
    assert_eq!(queues.remove_queue, [GraphicRemoval::Kitty(3)]);
    assert!(g.take_queues().is_none());
}

#[test]
fn a_texture_whose_cells_are_gone_is_dropped() {
    let mut g = Graphics::new();
    g.register_placed_texture(GraphicId::new(1));
    g.register_placed_texture(GraphicId::new(2));
    let mut active = g.collect_active_graphic_ids(&vec![2]);
    active.sort();
    assert_eq!(active, [2]);
    assert_eq!(g.placed_textures, [2]);
}

#[test]
fn what_is_removed_is_no_longer_counted() {
    let mut g = Graphics::new();
    g.track_graphic(GraphicId::new(1), 100, 1);
    g.track_graphic(GraphicId::new(2), 50, 2);
    g.texture_operations.push(GraphicRemoval::Atlas(GraphicId::new(1)));
    g.untrack_queued_removals();
    assert_eq!(g.total_bytes, 50);
    g.untrack_graphic_by_id(GraphicId::new(2));
    g.untrack_graphic_by_id(GraphicId::new(9));
    assert_eq!(g.total_bytes, 0);
}
