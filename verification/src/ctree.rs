//! Building the chunk map: parsing the bootstrap chunk array embedded in
//! the superblock, reading the chunk tree root through the seeded map, and
//! walking the chunk tree to ingest every chunk item.  After the walk the
//! map resolves all logical addresses the remaining trees refer to.
use vstd::prelude::*;
use crate::{clamp_nonneg, BtrfsError};
use crate::chunk_tree::{overlaps_any, spec_find, spec_offset, ChunkTree, ChunkTreeKey};
use crate::records::{
    chunk_at, header_at, item_at, key_at, keyptr_at, read_bytes, spec_chunk_at, spec_header_at,
    spec_item_at, spec_key_at, spec_keyptr_at, BTRFS_CHUNK_ITEM_KEY, CHUNK_PREFIX_SIZE,
    HEADER_SIZE, ITEM_SIZE, KEYPTR_SIZE, KEY_SIZE, STRIPE_SIZE,
};
use crate::superblock::BtrfsSuperblock;

verus! {

/// The level of the tree block held in `buf` (junk for a short buffer; every
/// walk checks the length before trusting it).
pub open spec fn spec_level_of(buf: Seq<u8>) -> int {
    spec_header_at(buf, 0).level as int
}

/// One pass over the packed `(key, chunk item, extra stripes)` records of
/// the bootstrap array, from cursor `off` up to `size`, accumulating chunk
/// map entries.
pub open spec fn spec_bootstrap(
    arr: Seq<u8>,
    size: int,
    off: int,
    entries: Seq<(ChunkTreeKey, u64)>,
) -> Result<Seq<(ChunkTreeKey, u64)>, BtrfsError>
    decreases clamp_nonneg(size - off),
{
    if off >= size {
        Ok(entries)
    } else if off + KEY_SIZE as int + CHUNK_PREFIX_SIZE as int > arr.len() {
        Err(BtrfsError::MalformedBlock)
    } else {
        let key = spec_key_at(arr, off);
        if key.ty != BTRFS_CHUNK_ITEM_KEY {
            Err(BtrfsError::BadItemType)
        } else {
            let chunk = spec_chunk_at(arr, off + KEY_SIZE as int);
            if chunk.num_stripes == 0 {
                Err(BtrfsError::BadInvariant)
            } else {
                let k = ChunkTreeKey { start: key.offset, size: chunk.length };
                if overlaps_any(entries, k) {
                    Err(BtrfsError::OverlapError)
                } else {
                    spec_bootstrap(
                        arr,
                        size,
                        off + KEY_SIZE as int + CHUNK_PREFIX_SIZE as int + (chunk.num_stripes
                            - 1) * STRIPE_SIZE as int,
                        entries.push((k, chunk.stripe_offset)),
                    )
                }
            }
        }
    }
}

/// Seeds a chunk map from the superblock's bootstrap chunk array.  Every
/// record must be a chunk item with at least one stripe; a record that runs
/// past the array, or a range overlapping an earlier one, is fatal.
pub fn parse_sys_chunk_array(sb: &BtrfsSuperblock) -> (r: Result<ChunkTree, BtrfsError>)
    ensures
        sb.sys_chunk_array_size == 0 ==> r == Err::<ChunkTree, BtrfsError>(
            BtrfsError::BadInvariant,
        ),
        sb.sys_chunk_array_size != 0 ==> match r {
            Ok(t) => {
                &&& spec_bootstrap(
                    sb.sys_chunk_array@,
                    sb.sys_chunk_array_size as int,
                    0,
                    Seq::empty(),
                ) == Ok::<Seq<(ChunkTreeKey, u64)>, BtrfsError>(t@)
                &&& t.wf()
            },
            Err(e) => spec_bootstrap(
                sb.sys_chunk_array@,
                sb.sys_chunk_array_size as int,
                0,
                Seq::empty(),
            ) == Err::<Seq<(ChunkTreeKey, u64)>, BtrfsError>(e),
        },
{
    let size = sb.sys_chunk_array_size as u64;
    if size == 0 {
        return Err(BtrfsError::BadInvariant);
    }
    let mut chunk_tree = ChunkTree::new();
    let mut offset: u64 = 0;
    while offset < size
        invariant
            sb.sys_chunk_array_size != 0,
            size == sb.sys_chunk_array_size as u64,
            size <= u32::MAX as u64,
            offset <= size + KEY_SIZE as u64 + CHUNK_PREFIX_SIZE as u64 + 65535 * STRIPE_SIZE
                as u64,
            chunk_tree.wf(),
            spec_bootstrap(sb.sys_chunk_array@, size as int, 0, Seq::empty()) == spec_bootstrap(
                sb.sys_chunk_array@,
                size as int,
                offset as int,
                chunk_tree@,
            ),
        decreases clamp_nonneg(size as int - offset as int),
    {
        if offset + KEY_SIZE as u64 + CHUNK_PREFIX_SIZE as u64 > sb.sys_chunk_array.len() as u64 {
            return Err(BtrfsError::MalformedBlock);
        }
        let key = key_at(&sb.sys_chunk_array, offset as usize);
        if key.ty != BTRFS_CHUNK_ITEM_KEY {
            return Err(BtrfsError::BadItemType);
        }
        let chunk = chunk_at(&sb.sys_chunk_array, offset as usize + KEY_SIZE);
        if chunk.num_stripes == 0 {
            return Err(BtrfsError::BadInvariant);
        }
        let k = ChunkTreeKey { start: key.offset, size: chunk.length };
        let ghost pre = chunk_tree@;
        let ghost preoff = offset as int;
        match chunk_tree.insert(k, chunk.stripe_offset) {
            Err(_) => {
                return Err(BtrfsError::OverlapError);
            },
            Ok(_) => {},
        }
        offset = offset + KEY_SIZE as u64 + CHUNK_PREFIX_SIZE as u64 + (chunk.num_stripes as u64
            - 1) * STRIPE_SIZE as u64;
        proof {
            assert(spec_bootstrap(sb.sys_chunk_array@, size as int, preoff, pre)
                == spec_bootstrap(sb.sys_chunk_array@, size as int, offset as int, chunk_tree@));
        }
    }
    Ok(chunk_tree)
}

/// What reading the chunk tree root block yields: the block's size is taken
/// from the chunk map entry containing its logical address.
pub open spec fn spec_read_chunk_tree_root(
    img: Seq<u8>,
    logical: u64,
    entries: Seq<(ChunkTreeKey, u64)>,
) -> Result<Seq<u8>, BtrfsError> {
    match spec_find(entries, logical) {
        None => Err(BtrfsError::UnresolvableLogical),
        Some((k, _phys)) => match spec_offset(entries, logical) {
            None => Err(BtrfsError::UnresolvableLogical),
            Some(p) => if p + k.size > img.len() {
                Err(BtrfsError::IoError)
            } else {
                Ok(img.subrange(p as int, p as int + k.size as int))
            },
        },
    }
}

/// Reads the chunk tree root block.  Its size comes from the chunk map
/// entry containing `chunk_logical_root`; a root outside every chunk is
/// unresolvable, and a block running past the image is an I/O failure.
pub fn read_chunk_tree_root(image: &Vec<u8>, chunk_logical_root: u64, cache: &ChunkTree) -> (r:
    Result<Vec<u8>, BtrfsError>)
    ensures
        match r {
            Ok(b) => spec_read_chunk_tree_root(image@, chunk_logical_root, cache@) == Ok::<
                Seq<u8>,
                BtrfsError,
            >(b@),
            Err(e) => spec_read_chunk_tree_root(image@, chunk_logical_root, cache@) == Err::<
                Seq<u8>,
                BtrfsError,
            >(e),
        },
{
    let k = match cache.find_logical(chunk_logical_root) {
        None => {
            return Err(BtrfsError::UnresolvableLogical);
        },
        Some((k, _)) => k,
    };
    let physical = match cache.offset(chunk_logical_root) {
        None => {
            return Err(BtrfsError::UnresolvableLogical);
        },
        Some(p) => p,
    };
    if k.size > image.len() as u64 || physical > image.len() as u64 - k.size {
        return Err(BtrfsError::IoError);
    }
    Ok(read_bytes(image, physical as usize, k.size as usize))
}

/// The chunk-loading walk over one tree block: at a leaf every chunk item
/// is inserted into the map; at an internal node every child pointer is
/// translated through the map grown so far and the child is walked in turn.
pub open spec fn spec_walk_chunk_node(
    img: Seq<u8>,
    buf: Seq<u8>,
    entries: Seq<(ChunkTreeKey, u64)>,
    ns: int,
) -> Result<Seq<(ChunkTreeKey, u64)>, BtrfsError>
    decreases spec_level_of(buf), 1int, 0int,
{
    if buf.len() < HEADER_SIZE {
        Err(BtrfsError::MalformedBlock)
    } else {
        let h = spec_header_at(buf, 0);
        if h.level == 0 {
            spec_chunk_leaf_items(buf, entries, h.nritems as int, 0)
        } else {
            spec_chunk_ptrs(img, buf, entries, ns, h.nritems as int, 0)
        }
    }
}

/// Leaf items of the chunk tree from index `i` on: chunk items become map
/// entries, other item types are ignored, an overlap is fatal.
pub open spec fn spec_chunk_leaf_items(
    buf: Seq<u8>,
    entries: Seq<(ChunkTreeKey, u64)>,
    n: int,
    i: int,
) -> Result<Seq<(ChunkTreeKey, u64)>, BtrfsError>
    decreases clamp_nonneg(n - i),
{
    if i >= n {
        Ok(entries)
    } else if HEADER_SIZE as int + (i + 1) * ITEM_SIZE as int > buf.len() {
        Err(BtrfsError::MalformedBlock)
    } else {
        let it = spec_item_at(buf, HEADER_SIZE as int + i * ITEM_SIZE as int);
        if it.key.ty != BTRFS_CHUNK_ITEM_KEY {
            spec_chunk_leaf_items(buf, entries, n, i + 1)
        } else if HEADER_SIZE as int + it.offset + CHUNK_PREFIX_SIZE as int > buf.len() {
            Err(BtrfsError::MalformedBlock)
        } else {
            let c = spec_chunk_at(buf, HEADER_SIZE as int + it.offset as int);
            let k = ChunkTreeKey { start: it.key.offset, size: c.length };
            if overlaps_any(entries, k) {
                Err(BtrfsError::OverlapError)
            } else {
                spec_chunk_leaf_items(buf, entries.push((k, c.stripe_offset)), n, i + 1)
            }
        }
    }
}

/// Key pointers of an internal chunk tree node from index `i` on: each
/// child pointer is translated through the map as grown by the children
/// walked before it.
pub open spec fn spec_chunk_ptrs(
    img: Seq<u8>,
    buf: Seq<u8>,
    entries: Seq<(ChunkTreeKey, u64)>,
    ns: int,
    n: int,
    i: int,
) -> Result<Seq<(ChunkTreeKey, u64)>, BtrfsError>
    decreases spec_level_of(buf), 0int, clamp_nonneg(n - i),
{
    if i >= n {
        Ok(entries)
    } else if HEADER_SIZE as int + (i + 1) * KEYPTR_SIZE as int > buf.len() {
        Err(BtrfsError::MalformedBlock)
    } else {
        let kp = spec_keyptr_at(buf, HEADER_SIZE as int + i * KEYPTR_SIZE as int);
        match spec_offset(entries, kp.blockptr) {
            None => Err(BtrfsError::UnresolvableLogical),
            Some(p) => if ns < HEADER_SIZE as int {
                Err(BtrfsError::MalformedBlock)
            } else if p + ns > img.len() {
                Err(BtrfsError::IoError)
            } else {
                let child = img.subrange(p as int, p as int + ns);
                if spec_header_at(child, 0).level >= spec_header_at(buf, 0).level {
                    Err(BtrfsError::MalformedBlock)
                } else {
                    match spec_walk_chunk_node(img, child, entries, ns) {
                        Ok(es) => spec_chunk_ptrs(img, buf, es, ns, n, i + 1),
                        Err(e) => Err(e),
                    }
                }
            },
        }
    }
}

/// Walks the chunk tree rooted at `buf`, inserting every chunk item into
/// `cache`.  The map only grows (old entries keep their positions), stays
/// disjoint, and on success holds exactly what the walk specifies.  A child
/// whose level does not drop below its parent's marks a corrupt image.
pub fn walk_chunk_root_tree(
    image: &Vec<u8>,
    buf: &Vec<u8>,
    cache: &mut ChunkTree,
    nodesize: u32,
) -> (r: Result<(), BtrfsError>)
    ensures
        old(cache)@.is_prefix_of(final(cache)@),
        old(cache).wf() ==> final(cache).wf(),
        match spec_walk_chunk_node(image@, buf@, old(cache)@, nodesize as int) {
            Ok(es) => r == Ok::<(), BtrfsError>(()) && final(cache)@ == es,
            Err(e) => r == Err::<(), BtrfsError>(e),
        },
    decreases spec_level_of(buf@),
{
    if buf.len() < HEADER_SIZE {
        return Err(BtrfsError::MalformedBlock);
    }
    let h = header_at(buf, 0);
    let n = h.nritems as usize;
    if h.level == 0 {
        let mut i: usize = 0;
        while i < n
            invariant
                buf.len() >= HEADER_SIZE,
                h == spec_header_at(buf@, 0),
                h.level == 0,
                n == h.nritems as usize,
                i <= n,
                old(cache)@.is_prefix_of(cache@),
                old(cache).wf() ==> cache.wf(),
                spec_chunk_leaf_items(buf@, old(cache)@, n as int, 0) == spec_chunk_leaf_items(
                    buf@,
                    cache@,
                    n as int,
                    i as int,
                ),
            decreases n - i,
        {
            if (i as u64 + 1) * (ITEM_SIZE as u64) > buf.len() as u64 - HEADER_SIZE as u64 {
                return Err(BtrfsError::MalformedBlock);
            }
            let item = item_at(buf, HEADER_SIZE + i * ITEM_SIZE);
            if item.key.ty != BTRFS_CHUNK_ITEM_KEY {
                proof {
                    assert(spec_chunk_leaf_items(buf@, cache@, n as int, i as int)
                        == spec_chunk_leaf_items(buf@, cache@, n as int, i as int + 1));
                }
                i = i + 1;
                continue ;
            }
            if HEADER_SIZE as u64 + item.offset as u64 + CHUNK_PREFIX_SIZE as u64 > buf.len()
                as u64 {
                return Err(BtrfsError::MalformedBlock);
            }
            let chunk = chunk_at(buf, HEADER_SIZE + item.offset as usize);
            let k = ChunkTreeKey { start: item.key.offset, size: chunk.length };
            let ghost pre = cache@;
            match cache.insert(k, chunk.stripe_offset) {
                Err(_) => {
                    return Err(BtrfsError::OverlapError);
                },
                Ok(_) => {},
            }
            proof {
                assert(spec_chunk_leaf_items(buf@, pre, n as int, i as int)
                    == spec_chunk_leaf_items(buf@, cache@, n as int, i as int + 1));
            }
            i = i + 1;
        }
        Ok(())
    } else {
        let mut i: usize = 0;
        while i < n
            invariant
                buf.len() >= HEADER_SIZE,
                h == spec_header_at(buf@, 0),
                h.level != 0,
                n == h.nritems as usize,
                i <= n,
                old(cache)@.is_prefix_of(cache@),
                old(cache).wf() ==> cache.wf(),
                spec_chunk_ptrs(image@, buf@, old(cache)@, nodesize as int, n as int, 0)
                    == spec_chunk_ptrs(image@, buf@, cache@, nodesize as int, n as int, i as int),
            decreases n - i,
        {
            if (i as u64 + 1) * (KEYPTR_SIZE as u64) > buf.len() as u64 - HEADER_SIZE as u64 {
                return Err(BtrfsError::MalformedBlock);
            }
            let kp = keyptr_at(buf, HEADER_SIZE + i * KEYPTR_SIZE);
            let physical = match cache.offset(kp.blockptr) {
                None => {
                    return Err(BtrfsError::UnresolvableLogical);
                },
                Some(p) => p,
            };
            if (nodesize as usize) < HEADER_SIZE {
                return Err(BtrfsError::MalformedBlock);
            }
            if nodesize as u64 > image.len() as u64 || physical > image.len() as u64 - nodesize
                as u64 {
                return Err(BtrfsError::IoError);
            }
            let node = read_bytes(image, physical as usize, nodesize as usize);
            let ch = header_at(&node, 0);
            if ch.level >= h.level {
                return Err(BtrfsError::MalformedBlock);
            }
            let ghost pre = cache@;
            match walk_chunk_root_tree(image, &node, cache, nodesize) {
                Ok(_) => {},
                Err(e) => {
                    return Err(e);
                },
            }
            proof {
                assert(spec_chunk_ptrs(image@, buf@, pre, nodesize as int, n as int, i as int)
                    == spec_chunk_ptrs(
                        image@, buf@, cache@, nodesize as int, n as int, i as int + 1));
            }
            i = i + 1;
        }
        Ok(())
    }
}

} // verus!
