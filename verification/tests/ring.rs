use rio_sessions::modes::ModeTracker;
use rio_sessions::ring::{ReplayRing, MIN_RING_BYTES};

#[test]
fn keeps_tail_and_baseline_state() {
    let mut r = ReplayRing::new(4096);
    // Enter alt screen, then push enough to evict that sequence.
    r.push(b"\x1b[?1049h");
    r.push(&vec![b'x'; 8192]);
    let replay = r.replay();
    let s = String::from_utf8_lossy(&replay);
    // The 1049h scrolled out of the ring but must reappear in the
    // synthesized prefix.
    assert!(s.starts_with("\x1b[!p"));
    assert!(s.contains("\x1b[?1049h"));
    // Ring bytes plus the synthesized mode prefix. The prefix now
    // emits both directions for every tracked mode, so allow a
    // generous fixed headroom (it is a small bounded constant).
    assert!(replay.len() <= 4096 + 256);
}

#[test]
fn never_starts_mid_sequence() {
    let mut r = ReplayRing::new(4096);
    r.push(&vec![b'a'; 4090]);
    // This escape sequence straddles the eviction point.
    r.push(b"\x1b[?25l");
    r.push(&[b'b'; 10]);
    let replay = r.replay();
    // Strip the synthesized prefix (ends after title/modes; find
    // the first ring byte by locating the last prefix byte).
    // Simpler check: ring content must not begin with a partial
    // CSI — scan for an ESC without terminator at the very start
    // after the known prefix end. We assert indirectly: parsing
    // the whole replay with a fresh tracker must end in ground.
    let mut t = ModeTracker::new();
    t.advance(&replay);
    assert!(!t.in_sequence());
}

#[test]
fn oversized_single_write() {
    let mut r = ReplayRing::new(4096);
    r.push(b"\x1b[?2004h");
    let mut big = vec![b'z'; 10000];
    big.extend_from_slice(b"tail");
    r.push(&big);
    let replay = r.replay();
    let s = String::from_utf8_lossy(&replay);
    assert!(s.ends_with("tail"));
    assert!(s.contains("\x1b[?2004h")); // resurrected in prefix
}

#[test]
fn wrap_around_replay_order() {
    let mut r = ReplayRing::new(4096);
    for i in 0..100u32 {
        r.push(format!("line-{i:04}\n").as_bytes());
    }
    let replay = r.replay();
    let s = String::from_utf8_lossy(&replay);
    let first = s.find("line-").unwrap();
    let nums: Vec<u32> = s[first..]
        .lines()
        .filter_map(|l| l.strip_prefix("line-"))
        .filter_map(|n| n.parse().ok())
        .collect();
    assert!(nums.windows(2).all(|w| w[1] == w[0] + 1), "order broken");
    assert_eq!(*nums.last().unwrap(), 99);
}

#[test]
fn a_small_ring_gets_the_least_size() {
    let mut r = ReplayRing::new(1);
    assert!(r.is_empty());
    r.push(&vec![b'x'; MIN_RING_BYTES]);
    assert_eq!(r.len(), MIN_RING_BYTES);
    r.push(b"y");
    assert_eq!(r.len(), MIN_RING_BYTES);
    assert!(r.replay().ends_with(b"xy"));
}

#[test]
fn what_fits_is_replayed_whole() {
    let mut r = ReplayRing::new(4096);
    r.push(b"one ");
    r.push(b"two");
    assert_eq!(r.len(), 7);
    let replay = r.replay();
    let prefix = ModeTracker::new().replay_prefix();
    assert_eq!(replay[..prefix.len()], prefix[..]);
    assert_eq!(&replay[prefix.len()..], b"one two");
}
