use haven_transfer::bitfield::{ChunkBitfield, BITFIELD_CAPACITY, BITFIELD_WORDS};
use haven_transfer::protocol::MAX_FRAMES_PER_CHUNK;

#[test]
fn test_basic_operations() {
    let mut bf = ChunkBitfield::new(100);
    assert!(!bf.is_complete());
    assert_eq!(bf.missing_count(), 100);

    assert!(bf.set(0));
    assert!(!bf.set(0)); // duplicate
    assert_eq!(bf.received(), 1);
    assert!(bf.get(0));
    assert!(!bf.get(1));

    for i in 1..100 {
        bf.set(i);
    }
    assert!(bf.is_complete());
    assert_eq!(bf.missing_frames().len(), 0);
}

#[test]
fn test_missing_frames() {
    let mut bf = ChunkBitfield::new(10);
    bf.set(0);
    bf.set(2);
    bf.set(5);
    bf.set(9);
    let missing = bf.missing_frames();
    assert_eq!(missing, vec![1, 3, 4, 6, 7, 8]);
}

#[test]
fn test_max_frames() {
    let mut bf = ChunkBitfield::new(MAX_FRAMES_PER_CHUNK as u16);
    for i in 0..MAX_FRAMES_PER_CHUNK as u16 {
        assert!(bf.set(i));
    }
    assert!(bf.is_complete());
}

#[test]
fn bitfield_capacity_holds_a_full_chunk() {
    assert_eq!(BITFIELD_WORDS, 47);
    assert_eq!(BITFIELD_CAPACITY, 47 * 64);
    assert!(BITFIELD_CAPACITY >= 2997);
    assert!(MAX_FRAMES_PER_CHUNK <= BITFIELD_CAPACITY);
}

#[test]
fn bitfield_ignores_index_beyond_capacity() {
    let mut bf = ChunkBitfield::new(u16::MAX);
    assert!(!bf.set(3008));
    assert!(!bf.set(u16::MAX - 1));
    assert!(!bf.get(3008));
    assert_eq!(bf.received(), 0);
    assert!(bf.set(3007));
    assert!(bf.get(3007));
    assert_eq!(bf.received(), 1);
}

#[test]
fn bitfield_ignores_index_the_chunk_does_not_have() {
    let mut bf = ChunkBitfield::new(4);
    assert!(!bf.set(4));
    assert!(!bf.set(100));
    assert_eq!(bf.received(), 0);
    assert_eq!(bf.missing_frames(), vec![0, 1, 2, 3]);
    for i in 0..4 {
        assert!(bf.set(i));
    }
    assert!(bf.is_complete());
    assert_eq!(bf.received(), bf.total());
    assert_eq!(bf.missing_count(), 0);
}

#[test]
fn bitfield_duplicate_does_not_count() {
    let mut bf = ChunkBitfield::new(70);
    assert!(bf.set(64));
    assert!(!bf.set(64));
    assert!(bf.set(63));
    assert_eq!(bf.received(), 2);
    assert!(bf.get(63) && bf.get(64));
    assert!(!bf.get(62) && !bf.get(65));
}

#[test]
fn bitfield_missing_is_exactly_the_clear_bits_in_order() {
    let mut bf = ChunkBitfield::new(200);
    let mut expected = Vec::new();
    for k in 0..200u16 {
        if k % 3 == 0 || k == 127 || k == 128 {
            assert!(bf.set(k));
        } else {
            expected.push(k);
        }
    }
    assert_eq!(bf.missing_frames(), expected);
    assert_eq!(bf.missing_count() as usize, expected.len());
    assert_eq!(bf.received() as usize, 200 - expected.len());
}

#[test]
fn bitfield_reset_forgets_everything() {
    let mut bf = ChunkBitfield::new(5);
    bf.set(1);
    bf.set(3);
    bf.reset(3);
    assert_eq!(bf.total(), 3);
    assert_eq!(bf.received(), 0);
    assert!(!bf.get(1));
    assert_eq!(bf.missing_frames(), vec![0, 1, 2]);
}

#[test]
fn bitfield_of_no_frames_is_complete() {
    let bf = ChunkBitfield::new(0);
    assert!(bf.is_complete());
    assert_eq!(bf.missing_frames(), Vec::<u16>::new());
}

#[test]
fn bitfield_clone_is_independent() {
    let mut a = ChunkBitfield::new(8);
    a.set(2);
    let mut b = a.clone();
    b.set(3);
    assert!(a.get(2) && !a.get(3));
    assert!(b.get(2) && b.get(3));
}
