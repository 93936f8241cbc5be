//! Chunk map behaviour: half-open overlap rejection, lookup, and
//! translation.
use btrfs_internals::chunk_tree::{ChunkTree, ChunkTreeKey};

#[test]
fn check_overlap() {
    let mut chunk: ChunkTree = ChunkTree::new();

    let _insert1 = chunk.insert(ChunkTreeKey { start: 200, size: 100 }, 5);
    let insert2 = chunk.insert(ChunkTreeKey { start: 250, size: 100 }, 6);
    assert_eq!(insert2.err(), Some(1));
}

#[test]
fn check_overlap1() {
    let mut chunk: ChunkTree = ChunkTree::new();

    let _insert1 = chunk.insert(ChunkTreeKey { start: 200, size: 100 }, 5);
    let insert2 = chunk.insert(ChunkTreeKey { start: 150, size: 100 }, 6);
    assert_eq!(insert2.err(), Some(1));
}

#[test]
fn check_overlap2() {
    let mut chunk: ChunkTree = ChunkTree::new();

    let _insert1 = chunk.insert(ChunkTreeKey { start: 200, size: 100 }, 5);
    let insert2 = chunk.insert(ChunkTreeKey { start: 350, size: 100 }, 6);
    assert_eq!(insert2.err(), None);
}

#[test]
fn adjacent_above_is_no_overlap() {
    let mut chunk: ChunkTree = ChunkTree::new();

    assert!(chunk.insert(ChunkTreeKey { start: 200, size: 100 }, 5).is_ok());
    assert!(chunk.insert(ChunkTreeKey { start: 300, size: 50 }, 6).is_ok());
    assert_eq!(chunk.len(), 2);
}

#[test]
fn adjacent_below_is_no_overlap() {
    let mut chunk: ChunkTree = ChunkTree::new();

    assert!(chunk.insert(ChunkTreeKey { start: 200, size: 100 }, 5).is_ok());
    assert!(chunk.insert(ChunkTreeKey { start: 100, size: 100 }, 6).is_ok());
    assert_eq!(chunk.len(), 2);
}

#[test]
fn containing_range_is_overlap() {
    let mut chunk: ChunkTree = ChunkTree::new();

    assert!(chunk.insert(ChunkTreeKey { start: 200, size: 100 }, 5).is_ok());
    // A range strictly containing an existing one overlaps it.
    let r = chunk.insert(ChunkTreeKey { start: 150, size: 200 }, 6);
    assert_eq!(r.err(), Some(1));
    assert_eq!(chunk.len(), 1);
}

#[test]
fn rejected_insert_leaves_map_unchanged() {
    let mut chunk: ChunkTree = ChunkTree::new();

    assert!(chunk.insert(ChunkTreeKey { start: 200, size: 100 }, 5).is_ok());
    let _ = chunk.insert(ChunkTreeKey { start: 250, size: 100 }, 6);
    assert_eq!(chunk.len(), 1);
    let (k, phys) = chunk.get(0);
    assert_eq!(k.start, 200);
    assert_eq!(k.size, 100);
    assert_eq!(phys, 5);
}

#[test]
fn find_logical_hits_the_covering_range() {
    let mut chunk: ChunkTree = ChunkTree::new();

    chunk.insert(ChunkTreeKey { start: 200, size: 100 }, 5).unwrap();
    chunk.insert(ChunkTreeKey { start: 1000, size: 16 }, 4096).unwrap();

    let (k, phys) = chunk.find_logical(250).unwrap();
    assert_eq!((k.start, k.size, phys), (200, 100, 5));
    let (k, phys) = chunk.find_logical(1015).unwrap();
    assert_eq!((k.start, k.size, phys), (1000, 16, 4096));

    // Half-open: the end of a range is outside it.
    assert!(chunk.find_logical(300).is_none());
    assert!(chunk.find_logical(199).is_none());
    assert!(chunk.find_logical(1016).is_none());
}

#[test]
fn display_lists_entries_in_insertion_order() {
    let mut chunk: ChunkTree = ChunkTree::new();
    assert_eq!(chunk.display_string(), "");
    chunk.insert(ChunkTreeKey { start: 200, size: 100 }, 5).unwrap();
    assert_eq!(
        chunk.display_string(),
        "Logical start 200, Logical size 100, Physical off: 5"
    );
    chunk.insert(ChunkTreeKey { start: 0, size: 10 }, 1048576).unwrap();
    assert_eq!(
        chunk.display_string(),
        "Logical start 200, Logical size 100, Physical off: 5\
         Logical start 0, Logical size 10, Physical off: 1048576"
    );
}

#[test]
fn offset_translates_by_delta() {
    let mut chunk: ChunkTree = ChunkTree::new();

    chunk.insert(ChunkTreeKey { start: 200, size: 100 }, 5).unwrap();

    // translate(start + delta) == phys + delta for every delta in range.
    assert_eq!(chunk.offset(200), Some(5));
    assert_eq!(chunk.offset(237), Some(42));
    assert_eq!(chunk.offset(299), Some(104));
    assert_eq!(chunk.offset(300), None);
    assert_eq!(chunk.offset(0), None);
}

#[test]
fn offset_past_the_address_space_is_none() {
    let mut chunk: ChunkTree = ChunkTree::new();
    chunk.insert(ChunkTreeKey { start: 0, size: 100 }, u64::MAX - 10).unwrap();
    assert_eq!(chunk.offset(5), Some(u64::MAX - 5));
    // A physical offset that does not fit in a machine word.
    assert_eq!(chunk.offset(50), None);
}
