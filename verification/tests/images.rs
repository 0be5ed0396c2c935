use rio_sessions::graphics::{ColorType, GraphicData, GraphicId, GraphicRemoval};
use rio_sessions::images::{display_size, needs_upload, GraphicDataEntry, ImageKey, ImageStore};

#[test]
fn image_keys_discriminate_source_and_owner() {
    // Implicit kitty ids allocate from 0x80000000 while the first sixel's
    // GraphicId is 1 — under the old flag-packed u32 key both mapped to
    // 0x80000001 and the kitty transmit clobbered the sixel's entry.
    assert_ne!(ImageKey::kitty(7, 0x8000_0001), ImageKey::atlas(7, 1));
    // A client-supplied kitty i= may occupy any u32 value, including ones
    // numerically equal to an atlas GraphicId.
    assert_ne!(ImageKey::kitty(7, 1), ImageKey::atlas(7, 1));
    // Per-terminal id counters restart at 1 (atlas) / 0x80000000 (kitty),
    // so the same protocol id from two tabs sharing a window must map to
    // distinct entries.
    assert_ne!(ImageKey::atlas(1, 1), ImageKey::atlas(2, 1));
    assert_ne!(
        ImageKey::kitty(1, 0x8000_0000),
        ImageKey::kitty(2, 0x8000_0000)
    );
    // Identity still holds within one terminal + source.
    assert_eq!(ImageKey::kitty(3, 42), ImageKey::kitty(3, 42));
    assert_eq!(ImageKey::atlas(3, 42), ImageKey::atlas(3, 42));
}

#[test]
fn an_image_that_is_sent_again_stays() {
    let mut store: ImageStore<&str> = ImageStore::new();
    store.insert(ImageKey::kitty(1, 7), "old");
    store.insert(ImageKey::kitty(2, 7), "other");
    store.insert(ImageKey::atlas(1, 7), "atlas");
    store.update(
        1,
        &vec![GraphicRemoval::Kitty(7), GraphicRemoval::Atlas(GraphicId::new(7))],
        vec![(8, "sixel")],
        vec![(7, "first"), (7, "new")],
    );
    assert_eq!(store.get(ImageKey::kitty(1, 7)), Some(&"new"));
    assert_eq!(store.get(ImageKey::kitty(2, 7)), Some(&"other"));
    assert_eq!(store.get(ImageKey::atlas(1, 7)), None);
    assert_eq!(store.get(ImageKey::atlas(1, 8)), Some(&"sixel"));
    store.remove(ImageKey::kitty(2, 7));
    assert_eq!(store.get(ImageKey::kitty(2, 7)), None);
}

#[test]
fn an_image_is_uploaded_when_it_was_sent_anew() {
    assert!(needs_upload(None, 3));
    assert!(needs_upload(Some(2), 3));
    assert!(!needs_upload(Some(3), 3));
    assert_eq!(display_size(10, 20, None, Some(5)), (10, 5));
    assert_eq!(display_size(10, 20, Some(4), None), (4, 20));
}

#[test]
fn a_transmission_is_uploaded_once() {
    let entry = |handle, transmit_time| {
        let data = GraphicData {
            id: GraphicId::new(1),
            width: 10,
            height: 20,
            color_type: ColorType::Rgb,
            pixels: Vec::new(),
            is_opaque: true,
            display_width: Some(4),
            display_height: None,
            transmit_time,
        };
        GraphicDataEntry::from_graphic_data(handle, &data)
    };
    let mut store: ImageStore<GraphicDataEntry<&str>> = ImageStore::new();
    let key = ImageKey::kitty(1, 7);
    assert!(store.upload(key, entry("first", 3)));
    assert!(!store.upload(key, entry("again", 3)));
    let held = store.get(key).unwrap();
    assert_eq!((held.handle, held.width, held.height), ("first", 4, 20));
    assert!(store.upload(key, entry("anew", 4)));
    assert_eq!(store.get(key).unwrap().handle, "anew");
    assert!(store.upload(ImageKey::kitty(2, 7), entry("other", 4)));
    assert_eq!(store.get(key).unwrap().transmit_time, 4);
}
