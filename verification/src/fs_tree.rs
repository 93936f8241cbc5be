//! The root tree and FS tree: finding the default subvolume's tree root,
//! collecting inode references into an inode table, and emitting the path
//! of every regular file by back-chaining parent references.
use vstd::prelude::*;
use std::collections::HashMap;
use crate::{clamp_nonneg, BtrfsError};
use crate::chunk_tree::{spec_offset, ChunkTree, ChunkTreeKey};
use crate::ctree::{
    parse_sys_chunk_array, read_chunk_tree_root, spec_bootstrap, spec_level_of,
    spec_read_chunk_tree_root, spec_walk_chunk_node, walk_chunk_root_tree,
};
use vstd::string::StringExecFns;
use crate::records::{
    dir_item_at, header_at, inode_ref_at, item_at, keyptr_at, le64_at, read_bytes,
    spec_dir_item_at, spec_header_at, spec_inode_ref_at, spec_item_at, spec_keyptr_at,
    spec_le64_at, zero_bytes, BtrfsKey, BTRFS_DIR_ITEM_KEY, BTRFS_FS_TREE_OBJECTID,
    BTRFS_FT_REG_FILE, BTRFS_INODE_REF_KEY, BTRFS_ROOT_ITEM_KEY, DIR_ITEM_SIZE, HEADER_SIZE,
    INODE_REF_SIZE, ITEM_SIZE, KEYPTR_SIZE, ROOT_ITEM_BYTENR_OFF,
};
use crate::superblock::{
    spec_sb_chunk_root, spec_sb_in_bounds, spec_sb_magic_ok, spec_sb_node_size, spec_sb_root,
    spec_sb_sys_chunk_array, spec_sb_sys_chunk_array_size, BtrfsSuperblock,
};

verus! {

broadcast use vstd::std_specs::hash::group_hash_axioms;

/// One inode reference: the item key it was found under (whose `objectid`
/// is the child inode and whose `offset` is the parent inode) and the
/// child's name within that parent.
#[derive(Debug)]
pub struct InodeRefT {
    pub key: BtrfsKey,
    pub name: String,
}

/// The mathematical content of an inode table: child inode number to the
/// reference's key and decoded name.
pub open spec fn table_model(m: Map<u64, InodeRefT>) -> Map<u64, (BtrfsKey, Seq<char>)> {
    m.map_values(|v: InodeRefT| (v.key, v.name@))
}

pub proof fn lemma_table_model_dom(m: Map<u64, InodeRefT>)
    ensures
        table_model(m).dom() == m.dom(),
{
    assert(table_model(m).dom() =~= m.dom());
}

pub proof fn lemma_table_model_insert(m: Map<u64, InodeRefT>, k: u64, v: InodeRefT)
    ensures
        table_model(m.insert(k, v)) == table_model(m).insert(k, (v.key, v.name@)),
{
    assert(table_model(m.insert(k, v)) =~= table_model(m).insert(k, (v.key, v.name@)));
}

/// The sequence-of-characters content of a list of path strings.
pub open spec fn paths_model(v: Seq<String>) -> Seq<Seq<char>> {
    v.map_values(|s: String| s@)
}

/// What decoding a byte sequence as UTF-8 yields: the character sequence,
/// or nothing when the bytes are not valid UTF-8.  The decoding is a
/// function of the bytes alone.
pub uninterp spec fn utf8_decode(bytes: Seq<u8>) -> Option<Seq<char>>;

/// Relies on `alloc::string::String::from_utf8`: decodes the given bytes as
/// UTF-8, failing exactly on invalid UTF-8.
#[verifier::external_body]
fn decode_utf8(bytes: Vec<u8>) -> (r: Option<String>)
    ensures
        match r {
            Some(s) => utf8_decode(bytes@) == Some(s@),
            None => utf8_decode(bytes@) == None::<Seq<char>>,
        },
{
    match String::from_utf8(bytes) {
        Ok(s) => Some(s),
        Err(_) => None,
    }
}

/// What reading one tree block of `ns` bytes at logical address `logical`
/// yields: the image bytes at its translated physical offset.
pub open spec fn spec_read_node(
    img: Seq<u8>,
    entries: Seq<(ChunkTreeKey, u64)>,
    logical: u64,
    ns: int,
) -> Result<Seq<u8>, BtrfsError> {
    match spec_offset(entries, logical) {
        None => Err(BtrfsError::UnresolvableLogical),
        Some(p) => if p + ns > img.len() {
            Err(BtrfsError::IoError)
        } else {
            Ok(img.subrange(p as int, p as int + ns))
        },
    }
}

/// Translation totality after load: the chunk map only grows during a
/// walk, so a block read that resolved against an earlier state of the map
/// resolves identically against the completed map.  Together with the walk
/// contracts — which turn an unresolvable pointer into
/// `UnresolvableLogical` on the spot — a walk that succeeded resolved
/// every block pointer it encountered, and those resolutions still hold
/// afterwards.
pub proof fn lemma_read_node_stable(
    entries1: Seq<(ChunkTreeKey, u64)>,
    entries2: Seq<(ChunkTreeKey, u64)>,
    img: Seq<u8>,
    logical: u64,
    ns: int,
)
    requires
        entries1.is_prefix_of(entries2),
        spec_read_node(img, entries1, logical, ns) is Ok,
    ensures
        spec_read_node(img, entries2, logical, ns) == spec_read_node(img, entries1, logical, ns),
{
    crate::chunk_tree::lemma_offset_monotone(entries1, entries2, logical);
}

/// Reads one tree block of `nodesize` bytes at `logical` through the chunk
/// map.
pub fn read_node(image: &Vec<u8>, cache: &ChunkTree, logical: u64, nodesize: u32) -> (r: Result<
    Vec<u8>,
    BtrfsError,
>)
    ensures
        match r {
            Ok(b) => spec_read_node(image@, cache@, logical, nodesize as int) == Ok::<
                Seq<u8>,
                BtrfsError,
            >(b@),
            Err(e) => spec_read_node(image@, cache@, logical, nodesize as int) == Err::<
                Seq<u8>,
                BtrfsError,
            >(e),
        },
{
    let physical = match cache.offset(logical) {
        None => {
            return Err(BtrfsError::UnresolvableLogical);
        },
        Some(p) => p,
    };
    if nodesize as u64 > image.len() as u64 || physical > image.len() as u64 - nodesize as u64 {
        return Err(BtrfsError::IoError);
    }
    Ok(read_bytes(image, physical as usize, nodesize as usize))
}

/// Reads the root tree root block (size `nodesize`) through the completed
/// chunk map.
pub fn read_root_tree(image: &Vec<u8>, root_logical: u64, cache: &ChunkTree, nodesize: u32) -> (r:
    Result<Vec<u8>, BtrfsError>)
    ensures
        match r {
            Ok(b) => spec_read_node(image@, cache@, root_logical, nodesize as int) == Ok::<
                Seq<u8>,
                BtrfsError,
            >(b@),
            Err(e) => spec_read_node(image@, cache@, root_logical, nodesize as int) == Err::<
                Seq<u8>,
                BtrfsError,
            >(e),
        },
{
    read_node(image, cache, root_logical, nodesize)
}

/// Scan of the root tree leaf from item `i` on, looking for the root item
/// of the default filesystem subvolume.  Each match reads the subvolume
/// tree's root block; the last match wins, and with no match the
/// accumulator (a zero-filled block) stands.
pub open spec fn spec_fs_root_scan(
    img: Seq<u8>,
    rt: Seq<u8>,
    entries: Seq<(ChunkTreeKey, u64)>,
    ns: int,
    n: int,
    i: int,
    acc: Seq<u8>,
) -> Result<Seq<u8>, BtrfsError>
    decreases clamp_nonneg(n - i),
{
    if i >= n {
        Ok(acc)
    } else if HEADER_SIZE as int + (i + 1) * ITEM_SIZE as int > rt.len() {
        Err(BtrfsError::MalformedBlock)
    } else {
        let it = spec_item_at(rt, HEADER_SIZE as int + i * ITEM_SIZE as int);
        if it.key.ty == BTRFS_ROOT_ITEM_KEY && it.key.objectid == BTRFS_FS_TREE_OBJECTID {
            if HEADER_SIZE as int + it.offset + ROOT_ITEM_BYTENR_OFF as int + 8 > rt.len() {
                Err(BtrfsError::MalformedBlock)
            } else {
                let bytenr = spec_le64_at(
                    rt,
                    HEADER_SIZE as int + it.offset + ROOT_ITEM_BYTENR_OFF as int,
                );
                match spec_read_node(img, entries, bytenr, ns) {
                    Ok(b) => spec_fs_root_scan(img, rt, entries, ns, n, i + 1, b),
                    Err(e) => Err(e),
                }
            }
        } else {
            spec_fs_root_scan(img, rt, entries, ns, n, i + 1, acc)
        }
    }
}

/// What finding and reading the FS tree root yields.  The root tree must
/// be a single leaf; a deeper root tree is out of scope and fatal.
pub open spec fn spec_read_fs_tree_root(
    img: Seq<u8>,
    rt: Seq<u8>,
    entries: Seq<(ChunkTreeKey, u64)>,
    ns: int,
) -> Result<Seq<u8>, BtrfsError> {
    if rt.len() < HEADER_SIZE {
        Err(BtrfsError::MalformedBlock)
    } else {
        let h = spec_header_at(rt, 0);
        if h.level != 0 {
            Err(BtrfsError::BadInvariant)
        } else {
            spec_fs_root_scan(
                img,
                rt,
                entries,
                ns,
                h.nritems as int,
                0,
                Seq::new(ns as nat, |j: int| 0u8),
            )
        }
    }
}

/// Scans the root tree leaf for the default FS tree's root item and reads
/// the FS tree root block it points to.  A root tree that is not a leaf is
/// fatal; with no matching item a zero-filled block (an empty leaf) is
/// returned, matching a subvolume with nothing in it.
pub fn read_fs_tree_root(
    image: &Vec<u8>,
    root_tree: &Vec<u8>,
    cache: &ChunkTree,
    nodesize: u32,
) -> (r: Result<Vec<u8>, BtrfsError>)
    ensures
        match r {
            Ok(b) => spec_read_fs_tree_root(image@, root_tree@, cache@, nodesize as int) == Ok::<
                Seq<u8>,
                BtrfsError,
            >(b@),
            Err(e) => spec_read_fs_tree_root(image@, root_tree@, cache@, nodesize as int) == Err::<
                Seq<u8>,
                BtrfsError,
            >(e),
        },
{
    if root_tree.len() < HEADER_SIZE {
        return Err(BtrfsError::MalformedBlock);
    }
    let h = header_at(root_tree, 0);
    if h.level != 0 {
        return Err(BtrfsError::BadInvariant);
    }
    let n = h.nritems as usize;
    let mut buf = zero_bytes(nodesize as usize);
    let ghost acc0 = buf@;
    let mut i: usize = 0;
    while i < n
        invariant
            root_tree.len() >= HEADER_SIZE,
            h == spec_header_at(root_tree@, 0),
            h.level == 0,
            n == h.nritems as usize,
            i <= n,
            acc0 == Seq::new(nodesize as nat, |j: int| 0u8),
            spec_fs_root_scan(image@, root_tree@, cache@, nodesize as int, n as int, 0, acc0)
                == spec_fs_root_scan(
                image@,
                root_tree@,
                cache@,
                nodesize as int,
                n as int,
                i as int,
                buf@,
            ),
        decreases n - i,
    {
        if (i as u64 + 1) * (ITEM_SIZE as u64) > root_tree.len() as u64 - HEADER_SIZE as u64 {
            return Err(BtrfsError::MalformedBlock);
        }
        let item = item_at(root_tree, HEADER_SIZE + i * ITEM_SIZE);
        if item.key.ty == BTRFS_ROOT_ITEM_KEY && item.key.objectid == BTRFS_FS_TREE_OBJECTID {
            if HEADER_SIZE as u64 + item.offset as u64 + ROOT_ITEM_BYTENR_OFF as u64 + 8
                > root_tree.len() as u64 {
                return Err(BtrfsError::MalformedBlock);
            }
            let bytenr = le64_at(root_tree, HEADER_SIZE + item.offset as usize
                + ROOT_ITEM_BYTENR_OFF);
            let ghost pre = buf@;
            match read_node(image, cache, bytenr, nodesize) {
                Ok(b) => {
                    buf = b;
                },
                Err(e) => {
                    return Err(e);
                },
            }
            proof {
                assert(spec_fs_root_scan(
                    image@, root_tree@, cache@, nodesize as int, n as int, i as int, pre)
                    == spec_fs_root_scan(
                    image@, root_tree@, cache@, nodesize as int, n as int, i as int + 1, buf@));
            }
        } else {
            proof {
                assert(spec_fs_root_scan(
                    image@, root_tree@, cache@, nodesize as int, n as int, i as int, buf@)
                    == spec_fs_root_scan(
                    image@, root_tree@, cache@, nodesize as int, n as int, i as int + 1, buf@));
            }
        }
        i = i + 1;
    }
    Ok(buf)
}

/// The inode-reference collection walk over one FS tree block: every
/// inode-reference item in a leaf records child inode, key, and decoded
/// name into the table; a later reference to the same child overwrites an
/// earlier one.
pub open spec fn spec_collect_refs_node(
    img: Seq<u8>,
    buf: Seq<u8>,
    entries: Seq<(ChunkTreeKey, u64)>,
    ns: int,
    table: Map<u64, (BtrfsKey, Seq<char>)>,
) -> Result<Map<u64, (BtrfsKey, Seq<char>)>, BtrfsError>
    decreases spec_level_of(buf), 1int, 0int,
{
    if buf.len() < HEADER_SIZE {
        Err(BtrfsError::MalformedBlock)
    } else {
        let h = spec_header_at(buf, 0);
        if h.level == 0 {
            spec_refs_leaf(buf, h.nritems as int, 0, table)
        } else {
            spec_refs_ptrs(img, buf, entries, ns, h.nritems as int, 0, table)
        }
    }
}

/// Inode-reference items of an FS tree leaf from index `i` on.
pub open spec fn spec_refs_leaf(
    buf: Seq<u8>,
    n: int,
    i: int,
    table: Map<u64, (BtrfsKey, Seq<char>)>,
) -> Result<Map<u64, (BtrfsKey, Seq<char>)>, BtrfsError>
    decreases clamp_nonneg(n - i),
{
    if i >= n {
        Ok(table)
    } else if HEADER_SIZE as int + (i + 1) * ITEM_SIZE as int > buf.len() {
        Err(BtrfsError::MalformedBlock)
    } else {
        let it = spec_item_at(buf, HEADER_SIZE as int + i * ITEM_SIZE as int);
        if it.key.ty != BTRFS_INODE_REF_KEY {
            spec_refs_leaf(buf, n, i + 1, table)
        } else if HEADER_SIZE as int + it.offset + INODE_REF_SIZE as int > buf.len() {
            Err(BtrfsError::MalformedBlock)
        } else {
            let ir = spec_inode_ref_at(buf, HEADER_SIZE as int + it.offset as int);
            if HEADER_SIZE as int + it.offset + INODE_REF_SIZE as int + ir.name_len > buf.len() {
                Err(BtrfsError::MalformedBlock)
            } else {
                let name_bytes = buf.subrange(
                    HEADER_SIZE as int + it.offset + INODE_REF_SIZE as int,
                    HEADER_SIZE as int + it.offset + INODE_REF_SIZE as int + ir.name_len,
                );
                match utf8_decode(name_bytes) {
                    None => Err(BtrfsError::BadUtf8Name),
                    Some(chars) => spec_refs_leaf(
                        buf,
                        n,
                        i + 1,
                        table.insert(it.key.objectid, (it.key, chars)),
                    ),
                }
            }
        }
    }
}

/// Key pointers of an internal FS tree node from index `i` on, for the
/// inode-reference pass.
pub open spec fn spec_refs_ptrs(
    img: Seq<u8>,
    buf: Seq<u8>,
    entries: Seq<(ChunkTreeKey, u64)>,
    ns: int,
    n: int,
    i: int,
    table: Map<u64, (BtrfsKey, Seq<char>)>,
) -> Result<Map<u64, (BtrfsKey, Seq<char>)>, BtrfsError>
    decreases spec_level_of(buf), 0int, clamp_nonneg(n - i),
{
    if i >= n {
        Ok(table)
    } else if HEADER_SIZE as int + (i + 1) * KEYPTR_SIZE as int > buf.len() {
        Err(BtrfsError::MalformedBlock)
    } else {
        let kp = spec_keyptr_at(buf, HEADER_SIZE as int + i * KEYPTR_SIZE as int);
        match spec_offset(entries, kp.blockptr) {
            None => Err(BtrfsError::UnresolvableLogical),
            Some(p) => if ns < HEADER_SIZE as int {
                Err(BtrfsError::MalformedBlock)
            } else if p + ns > img.len() {
                Err(BtrfsError::IoError)
            } else {
                let child = img.subrange(p as int, p as int + ns);
                if spec_header_at(child, 0).level >= spec_header_at(buf, 0).level {
                    Err(BtrfsError::MalformedBlock)
                } else {
                    match spec_collect_refs_node(img, child, entries, ns, table) {
                        Ok(t2) => spec_refs_ptrs(img, buf, entries, ns, n, i + 1, t2),
                        Err(e) => Err(e),
                    }
                }
            },
        }
    }
}

/// Walks the FS tree rooted at `buf` and records every inode reference
/// into `inode_ref_cache`: child inode number to key and decoded name.
/// Invalid UTF-8 in a name is fatal.
pub fn read_inode_ref_items(
    image: &Vec<u8>,
    fs_tree: &Vec<u8>,
    cache: &ChunkTree,
    nodesize: u32,
    inode_ref_cache: &mut HashMap<u64, InodeRefT>,
) -> (r: Result<(), BtrfsError>)
    ensures
        old(inode_ref_cache)@.dom().subset_of(final(inode_ref_cache)@.dom()),
        match spec_collect_refs_node(
            image@,
            fs_tree@,
            cache@,
            nodesize as int,
            table_model(old(inode_ref_cache)@),
        ) {
            Ok(t) => r == Ok::<(), BtrfsError>(()) && table_model(final(inode_ref_cache)@) == t,
            Err(e) => r == Err::<(), BtrfsError>(e),
        },
    decreases spec_level_of(fs_tree@),
{
    if fs_tree.len() < HEADER_SIZE {
        return Err(BtrfsError::MalformedBlock);
    }
    let h = header_at(fs_tree, 0);
    let n = h.nritems as usize;
    if h.level == 0 {
        let mut i: usize = 0;
        while i < n
            invariant
                fs_tree.len() >= HEADER_SIZE,
                h == spec_header_at(fs_tree@, 0),
                h.level == 0,
                n == h.nritems as usize,
                i <= n,
                old(inode_ref_cache)@.dom().subset_of(inode_ref_cache@.dom()),
                spec_refs_leaf(
                    fs_tree@,
                    n as int,
                    0,
                    table_model(old(inode_ref_cache)@),
                ) == spec_refs_leaf(
                    fs_tree@,
                    n as int,
                    i as int,
                    table_model(inode_ref_cache@),
                ),
            decreases n - i,
        {
            if (i as u64 + 1) * (ITEM_SIZE as u64) > fs_tree.len() as u64 - HEADER_SIZE as u64 {
                return Err(BtrfsError::MalformedBlock);
            }
            let item = item_at(fs_tree, HEADER_SIZE + i * ITEM_SIZE);
            if item.key.ty != BTRFS_INODE_REF_KEY {
                proof {
                    assert(spec_refs_leaf(
                        fs_tree@, n as int, i as int, table_model(inode_ref_cache@))
                        == spec_refs_leaf(
                        fs_tree@, n as int, i as int + 1, table_model(inode_ref_cache@)));
                }
                i = i + 1;
                continue ;
            }
            if HEADER_SIZE as u64 + item.offset as u64 + INODE_REF_SIZE as u64 > fs_tree.len()
                as u64 {
                return Err(BtrfsError::MalformedBlock);
            }
            let inode_ref = inode_ref_at(fs_tree, HEADER_SIZE + item.offset as usize);
            if HEADER_SIZE as u64 + item.offset as u64 + INODE_REF_SIZE as u64
                + inode_ref.name_len as u64 > fs_tree.len() as u64 {
                return Err(BtrfsError::MalformedBlock);
            }
            let name_bytes = read_bytes(
                fs_tree,
                HEADER_SIZE + item.offset as usize + INODE_REF_SIZE,
                inode_ref.name_len as usize,
            );
            let name = match decode_utf8(name_bytes) {
                None => {
                    return Err(BtrfsError::BadUtf8Name);
                },
                Some(s) => s,
            };
            let ghost pre = inode_ref_cache@;
            let ghost chars = name@;
            let v = InodeRefT { key: item.key, name };
            let ghost gv = v;
            inode_ref_cache.insert(item.key.objectid, v);
            proof {
                lemma_table_model_insert(pre, item.key.objectid, gv);
                assert(spec_refs_leaf(fs_tree@, n as int, i as int, table_model(pre))
                    == spec_refs_leaf(
                    fs_tree@, n as int, i as int + 1, table_model(inode_ref_cache@)));
            }
            i = i + 1;
        }
        Ok(())
    } else {
        let mut i: usize = 0;
        while i < n
            invariant
                fs_tree.len() >= HEADER_SIZE,
                h == spec_header_at(fs_tree@, 0),
                h.level != 0,
                n == h.nritems as usize,
                i <= n,
                old(inode_ref_cache)@.dom().subset_of(inode_ref_cache@.dom()),
                spec_refs_ptrs(
                    image@,
                    fs_tree@,
                    cache@,
                    nodesize as int,
                    n as int,
                    0,
                    table_model(old(inode_ref_cache)@),
                ) == spec_refs_ptrs(
                    image@,
                    fs_tree@,
                    cache@,
                    nodesize as int,
                    n as int,
                    i as int,
                    table_model(inode_ref_cache@),
                ),
            decreases n - i,
        {
            if (i as u64 + 1) * (KEYPTR_SIZE as u64) > fs_tree.len() as u64 - HEADER_SIZE as u64 {
                return Err(BtrfsError::MalformedBlock);
            }
            let kp = keyptr_at(fs_tree, HEADER_SIZE + i * KEYPTR_SIZE);
            let physical = match cache.offset(kp.blockptr) {
                None => {
                    return Err(BtrfsError::UnresolvableLogical);
                },
                Some(p) => p,
            };
            if (nodesize as usize) < HEADER_SIZE {
                return Err(BtrfsError::MalformedBlock);
            }
            if nodesize as u64 > image.len() as u64 || physical > image.len() as u64 - nodesize
                as u64 {
                return Err(BtrfsError::IoError);
            }
            let node = read_bytes(image, physical as usize, nodesize as usize);
            let ch = header_at(&node, 0);
            if ch.level >= h.level {
                return Err(BtrfsError::MalformedBlock);
            }
            let ghost pre = inode_ref_cache@;
            match read_inode_ref_items(image, &node, cache, nodesize, inode_ref_cache) {
                Ok(_) => {},
                Err(e) => {
                    return Err(e);
                },
            }
            proof {
                assert(spec_refs_ptrs(
                    image@, fs_tree@, cache@, nodesize as int, n as int, i as int,
                    table_model(pre))
                    == spec_refs_ptrs(
                    image@, fs_tree@, cache@, nodesize as int, n as int, i as int + 1,
                    table_model(inode_ref_cache@)));
            }
            i = i + 1;
        }
        Ok(())
    }
}

/// The path of the file at inode `cur`, built by back-chaining parent
/// references through the inode table: empty at a self-referential root,
/// else the parent's path, a separator, and the inode's own name.  An inode
/// missing from the table, or a chain that does not reach a root within
/// `fuel` steps, is a dangling reference.
pub open spec fn spec_build_path(
    table: Map<u64, (BtrfsKey, Seq<char>)>,
    cur: u64,
    fuel: nat,
) -> Result<Seq<char>, BtrfsError>
    decreases fuel,
{
    if !table.dom().contains(cur) {
        Err(BtrfsError::DanglingInodeRef)
    } else if table[cur].0.offset == cur {
        Ok(Seq::empty())
    } else if fuel == 0 {
        Err(BtrfsError::DanglingInodeRef)
    } else {
        match spec_build_path(table, table[cur].0.offset, (fuel - 1) as nat) {
            Ok(p) => Ok(p + seq!['/'] + table[cur].1),
            Err(e) => Err(e),
        }
    }
}

/// Builds the path of inode `cur` by walking the inode table towards the
/// subvolume root, spending one unit of `fuel` per step up.
pub fn build_path(table: &HashMap<u64, InodeRefT>, cur: u64, fuel: usize) -> (r: Result<
    String,
    BtrfsError,
>)
    ensures
        match r {
            Ok(s) => spec_build_path(table_model(table@), cur, fuel as nat) == Ok::<
                Seq<char>,
                BtrfsError,
            >(s@),
            Err(e) => spec_build_path(table_model(table@), cur, fuel as nat) == Err::<
                Seq<char>,
                BtrfsError,
            >(e),
        },
    decreases fuel,
{
    proof {
        lemma_table_model_dom(table@);
    }
    let entry = match table.get(&cur) {
        None => {
            return Err(BtrfsError::DanglingInodeRef);
        },
        Some(e) => e,
    };
    proof {
        assert(table_model(table@)[cur] == (entry.key, entry.name@));
    }
    let parent = entry.key.offset;
    if parent == cur {
        return Ok(String::new());
    }
    if fuel == 0 {
        return Err(BtrfsError::DanglingInodeRef);
    }
    let mut p = match build_path(table, parent, fuel - 1) {
        Err(e) => {
            return Err(e);
        },
        Ok(p) => p,
    };
    let ghost prefix = p@;
    p.append("/");
    p.append(entry.name.as_str());
    proof {
        reveal_strlit("/");
        assert("/"@ =~= seq!['/']);
        assert(p@ =~= prefix + seq!['/'] + entry.name@);
    }
    Ok(p)
}

/// The path-emission walk over one FS tree block: every directory item in
/// a leaf whose file type is a regular file contributes the back-chained
/// path of its target inode, in item order; internal nodes contribute
/// their children's paths in key order.
pub open spec fn spec_emit_node(
    img: Seq<u8>,
    buf: Seq<u8>,
    entries: Seq<(ChunkTreeKey, u64)>,
    ns: int,
    table: Map<u64, (BtrfsKey, Seq<char>)>,
    acc: Seq<Seq<char>>,
) -> Result<Seq<Seq<char>>, BtrfsError>
    decreases spec_level_of(buf), 1int, 0int,
{
    if buf.len() < HEADER_SIZE {
        Err(BtrfsError::MalformedBlock)
    } else {
        let h = spec_header_at(buf, 0);
        if h.level == 0 {
            spec_emit_leaf(buf, h.nritems as int, 0, table, acc)
        } else {
            spec_emit_ptrs(img, buf, entries, ns, h.nritems as int, 0, table, acc)
        }
    }
}

/// Directory items of an FS tree leaf from index `i` on, for the
/// path-emission pass.
pub open spec fn spec_emit_leaf(
    buf: Seq<u8>,
    n: int,
    i: int,
    table: Map<u64, (BtrfsKey, Seq<char>)>,
    acc: Seq<Seq<char>>,
) -> Result<Seq<Seq<char>>, BtrfsError>
    decreases clamp_nonneg(n - i),
{
    if i >= n {
        Ok(acc)
    } else if HEADER_SIZE as int + (i + 1) * ITEM_SIZE as int > buf.len() {
        Err(BtrfsError::MalformedBlock)
    } else {
        let it = spec_item_at(buf, HEADER_SIZE as int + i * ITEM_SIZE as int);
        if it.key.ty != BTRFS_DIR_ITEM_KEY {
            spec_emit_leaf(buf, n, i + 1, table, acc)
        } else if HEADER_SIZE as int + it.offset + DIR_ITEM_SIZE as int > buf.len() {
            Err(BtrfsError::MalformedBlock)
        } else {
            let d = spec_dir_item_at(buf, HEADER_SIZE as int + it.offset as int);
            if d.ty != BTRFS_FT_REG_FILE {
                spec_emit_leaf(buf, n, i + 1, table, acc)
            } else {
                match spec_build_path(table, d.location.objectid, table.dom().len()) {
                    Ok(p) => spec_emit_leaf(buf, n, i + 1, table, acc.push(p)),
                    Err(e) => Err(e),
                }
            }
        }
    }
}

/// Key pointers of an internal FS tree node from index `i` on, for the
/// path-emission pass.
pub open spec fn spec_emit_ptrs(
    img: Seq<u8>,
    buf: Seq<u8>,
    entries: Seq<(ChunkTreeKey, u64)>,
    ns: int,
    n: int,
    i: int,
    table: Map<u64, (BtrfsKey, Seq<char>)>,
    acc: Seq<Seq<char>>,
) -> Result<Seq<Seq<char>>, BtrfsError>
    decreases spec_level_of(buf), 0int, clamp_nonneg(n - i),
{
    if i >= n {
        Ok(acc)
    } else if HEADER_SIZE as int + (i + 1) * KEYPTR_SIZE as int > buf.len() {
        Err(BtrfsError::MalformedBlock)
    } else {
        let kp = spec_keyptr_at(buf, HEADER_SIZE as int + i * KEYPTR_SIZE as int);
        match spec_offset(entries, kp.blockptr) {
            None => Err(BtrfsError::UnresolvableLogical),
            Some(p) => if ns < HEADER_SIZE as int {
                Err(BtrfsError::MalformedBlock)
            } else if p + ns > img.len() {
                Err(BtrfsError::IoError)
            } else {
                let child = img.subrange(p as int, p as int + ns);
                if spec_header_at(child, 0).level >= spec_header_at(buf, 0).level {
                    Err(BtrfsError::MalformedBlock)
                } else {
                    match spec_emit_node(img, child, entries, ns, table, acc) {
                        Ok(a2) => spec_emit_ptrs(img, buf, entries, ns, n, i + 1, table, a2),
                        Err(e) => Err(e),
                    }
                }
            },
        }
    }
}

/// Walks the FS tree rooted at `buf` and appends to `paths` the path of
/// every regular file named by a directory item, in traversal order.  A
/// target inode whose back-chain leaves the table or never reaches a
/// self-referential root is fatal.
pub fn collect_file_paths(
    image: &Vec<u8>,
    fs_tree: &Vec<u8>,
    cache: &ChunkTree,
    nodesize: u32,
    inode_ref_cache: &HashMap<u64, InodeRefT>,
    paths: &mut Vec<String>,
) -> (r: Result<(), BtrfsError>)
    ensures
        match spec_emit_node(
            image@,
            fs_tree@,
            cache@,
            nodesize as int,
            table_model(inode_ref_cache@),
            paths_model(old(paths)@),
        ) {
            Ok(ps) => r == Ok::<(), BtrfsError>(()) && paths_model(final(paths)@) == ps,
            Err(e) => r == Err::<(), BtrfsError>(e),
        },
    decreases spec_level_of(fs_tree@),
{
    if fs_tree.len() < HEADER_SIZE {
        return Err(BtrfsError::MalformedBlock);
    }
    let h = header_at(fs_tree, 0);
    let n = h.nritems as usize;
    if h.level == 0 {
        let mut i: usize = 0;
        while i < n
            invariant
                fs_tree.len() >= HEADER_SIZE,
                h == spec_header_at(fs_tree@, 0),
                h.level == 0,
                n == h.nritems as usize,
                i <= n,
                spec_emit_leaf(
                    fs_tree@,
                    n as int,
                    0,
                    table_model(inode_ref_cache@),
                    paths_model(old(paths)@),
                ) == spec_emit_leaf(
                    fs_tree@,
                    n as int,
                    i as int,
                    table_model(inode_ref_cache@),
                    paths_model(paths@),
                ),
            decreases n - i,
        {
            if (i as u64 + 1) * (ITEM_SIZE as u64) > fs_tree.len() as u64 - HEADER_SIZE as u64 {
                return Err(BtrfsError::MalformedBlock);
            }
            let item = item_at(fs_tree, HEADER_SIZE + i * ITEM_SIZE);
            if item.key.ty != BTRFS_DIR_ITEM_KEY {
                proof {
                    assert(spec_emit_leaf(
                        fs_tree@, n as int, i as int, table_model(inode_ref_cache@),
                        paths_model(paths@))
                        == spec_emit_leaf(
                        fs_tree@, n as int, i as int + 1, table_model(inode_ref_cache@),
                        paths_model(paths@)));
                }
                i = i + 1;
                continue ;
            }
            if HEADER_SIZE as u64 + item.offset as u64 + DIR_ITEM_SIZE as u64 > fs_tree.len()
                as u64 {
                return Err(BtrfsError::MalformedBlock);
            }
            let dir_item = dir_item_at(fs_tree, HEADER_SIZE + item.offset as usize);
            if dir_item.ty != BTRFS_FT_REG_FILE {
                proof {
                    assert(spec_emit_leaf(
                        fs_tree@, n as int, i as int, table_model(inode_ref_cache@),
                        paths_model(paths@))
                        == spec_emit_leaf(
                        fs_tree@, n as int, i as int + 1, table_model(inode_ref_cache@),
                        paths_model(paths@)));
                }
                i = i + 1;
                continue ;
            }
            proof {
                lemma_table_model_dom(inode_ref_cache@);
            }
            let fuel = inode_ref_cache.len();
            let path = match build_path(inode_ref_cache, dir_item.location.objectid, fuel) {
                Err(e) => {
                    return Err(e);
                },
                Ok(p) => p,
            };
            let ghost pre = paths_model(paths@);
            let ghost gp = path@;
            paths.push(path);
            proof {
                assert(paths_model(paths@) =~= pre.push(gp));
                assert(spec_emit_leaf(
                    fs_tree@, n as int, i as int, table_model(inode_ref_cache@), pre)
                    == spec_emit_leaf(
                    fs_tree@, n as int, i as int + 1, table_model(inode_ref_cache@),
                    paths_model(paths@)));
            }
            i = i + 1;
        }
        Ok(())
    } else {
        let mut i: usize = 0;
        while i < n
            invariant
                fs_tree.len() >= HEADER_SIZE,
                h == spec_header_at(fs_tree@, 0),
                h.level != 0,
                n == h.nritems as usize,
                i <= n,
                spec_emit_ptrs(
                    image@,
                    fs_tree@,
                    cache@,
                    nodesize as int,
                    n as int,
                    0,
                    table_model(inode_ref_cache@),
                    paths_model(old(paths)@),
                ) == spec_emit_ptrs(
                    image@,
                    fs_tree@,
                    cache@,
                    nodesize as int,
                    n as int,
                    i as int,
                    table_model(inode_ref_cache@),
                    paths_model(paths@),
                ),
            decreases n - i,
        {
            if (i as u64 + 1) * (KEYPTR_SIZE as u64) > fs_tree.len() as u64 - HEADER_SIZE as u64 {
                return Err(BtrfsError::MalformedBlock);
            }
            let kp = keyptr_at(fs_tree, HEADER_SIZE + i * KEYPTR_SIZE);
            let physical = match cache.offset(kp.blockptr) {
                None => {
                    return Err(BtrfsError::UnresolvableLogical);
                },
                Some(p) => p,
            };
            if (nodesize as usize) < HEADER_SIZE {
                return Err(BtrfsError::MalformedBlock);
            }
            if nodesize as u64 > image.len() as u64 || physical > image.len() as u64 - nodesize
                as u64 {
                return Err(BtrfsError::IoError);
            }
            let node = read_bytes(image, physical as usize, nodesize as usize);
            let ch = header_at(&node, 0);
            if ch.level >= h.level {
                return Err(BtrfsError::MalformedBlock);
            }
            let ghost pre = paths_model(paths@);
            match collect_file_paths(image, &node, cache, nodesize, inode_ref_cache, paths) {
                Ok(_) => {},
                Err(e) => {
                    return Err(e);
                },
            }
            proof {
                assert(spec_emit_ptrs(
                    image@, fs_tree@, cache@, nodesize as int, n as int, i as int,
                    table_model(inode_ref_cache@), pre)
                    == spec_emit_ptrs(
                    image@, fs_tree@, cache@, nodesize as int, n as int, i as int + 1,
                    table_model(inode_ref_cache@), paths_model(paths@)));
            }
            i = i + 1;
        }
        Ok(())
    }
}

/// The full listing of an image's regular-file paths: decode and check the
/// superblock, seed the chunk map from the bootstrap array, read and walk
/// the chunk tree, find the FS tree through the root tree, collect inode
/// references, and emit one path per regular-file directory item.
pub open spec fn spec_list_file_paths(img: Seq<u8>) -> Result<Seq<Seq<char>>, BtrfsError> {
    if !spec_sb_in_bounds(img) {
        Err(BtrfsError::IoError)
    } else if !spec_sb_magic_ok(img) {
        Err(BtrfsError::BadMagic)
    } else if spec_sb_sys_chunk_array_size(img) == 0 {
        Err(BtrfsError::BadInvariant)
    } else {
        let ns = spec_sb_node_size(img) as int;
        match spec_bootstrap(
            spec_sb_sys_chunk_array(img),
            spec_sb_sys_chunk_array_size(img) as int,
            0,
            Seq::empty(),
        ) {
            Err(e) => Err(e),
            Ok(seeded) => match spec_read_chunk_tree_root(img, spec_sb_chunk_root(img), seeded) {
                Err(e) => Err(e),
                Ok(croot) => match spec_walk_chunk_node(img, croot, seeded, ns) {
                    Err(e) => Err(e),
                    Ok(entries) => match spec_read_node(img, entries, spec_sb_root(img), ns) {
                        Err(e) => Err(e),
                        Ok(rt) => match spec_read_fs_tree_root(img, rt, entries, ns) {
                            Err(e) => Err(e),
                            Ok(ft) => match spec_collect_refs_node(
                                img,
                                ft,
                                entries,
                                ns,
                                Map::empty(),
                            ) {
                                Err(e) => Err(e),
                                Ok(table) => spec_emit_node(
                                    img,
                                    ft,
                                    entries,
                                    ns,
                                    table,
                                    Seq::empty(),
                                ),
                            },
                        },
                    },
                },
            },
        }
    }
}

/// Lists the full path, relative to the subvolume root, of every regular
/// file in the image's default filesystem subvolume.
pub fn list_file_paths(image: &Vec<u8>) -> (r: Result<Vec<String>, BtrfsError>)
    ensures
        match r {
            Ok(v) => spec_list_file_paths(image@) == Ok::<Seq<Seq<char>>, BtrfsError>(
                paths_model(v@),
            ),
            Err(e) => spec_list_file_paths(image@) == Err::<Seq<Seq<char>>, BtrfsError>(e),
        },
{
    let mut superblock = BtrfsSuperblock::new();
    match superblock.check_valid_superblock(image) {
        Err(e) => {
            return Err(e);
        },
        Ok(_) => {},
    }
    let mut chunktree_cache = match parse_sys_chunk_array(&superblock) {
        Err(e) => {
            return Err(e);
        },
        Ok(t) => t,
    };
    let chunk_tree_root = match read_chunk_tree_root(
        image,
        superblock.chunk_root,
        &chunktree_cache,
    ) {
        Err(e) => {
            return Err(e);
        },
        Ok(b) => b,
    };
    match walk_chunk_root_tree(image, &chunk_tree_root, &mut chunktree_cache, superblock.node_size)
        {
        Err(e) => {
            return Err(e);
        },
        Ok(_) => {},
    }
    let root_tree = match read_root_tree(image, superblock.root, &chunktree_cache,
        superblock.node_size) {
        Err(e) => {
            return Err(e);
        },
        Ok(b) => b,
    };
    let fs_tree_root = match read_fs_tree_root(image, &root_tree, &chunktree_cache,
        superblock.node_size) {
        Err(e) => {
            return Err(e);
        },
        Ok(b) => b,
    };
    let mut inode_ref_map: HashMap<u64, InodeRefT> = HashMap::new();
    proof {
        assert(table_model(inode_ref_map@) =~= Map::<u64, (BtrfsKey, Seq<char>)>::empty());
    }
    match read_inode_ref_items(
        image,
        &fs_tree_root,
        &chunktree_cache,
        superblock.node_size,
        &mut inode_ref_map,
    ) {
        Err(e) => {
            return Err(e);
        },
        Ok(_) => {},
    }
    let mut paths: Vec<String> = Vec::new();
    proof {
        assert(paths_model(paths@) =~= Seq::<Seq<char>>::empty());
    }
    match collect_file_paths(
        image,
        &fs_tree_root,
        &chunktree_cache,
        superblock.node_size,
        &inode_ref_map,
        &mut paths,
    ) {
        Err(e) => {
            return Err(e);
        },
        Ok(_) => {},
    }
    Ok(paths)
}

/// Path determinism: the listing is a function of the image bytes alone,
/// so any two successful listings of the same image agree.
pub proof fn lemma_listing_deterministic(
    img: Seq<u8>,
    out1: Seq<Seq<char>>,
    out2: Seq<Seq<char>>,
)
    requires
        spec_list_file_paths(img) == Ok::<Seq<Seq<char>>, BtrfsError>(out1),
        spec_list_file_paths(img) == Ok::<Seq<Seq<char>>, BtrfsError>(out2),
    ensures
        out1 == out2,
{
}

/// Whether the inode table's parent chain from `cur` reaches a
/// self-referential root entry within `n` steps, every inode along the way
/// being present in the table.
pub open spec fn chain_reaches_root(
    table: Map<u64, (BtrfsKey, Seq<char>)>,
    cur: u64,
    n: nat,
) -> bool
    decreases n,
{
    table.dom().contains(cur) && (table[cur].0.offset == cur || (n > 0 && chain_reaches_root(
        table,
        table[cur].0.offset,
        (n - 1) as nat,
    )))
}

/// Root termination, one direction: a back-chain that succeeded found a
/// self-referential root within its fuel.
pub proof fn lemma_build_path_reaches_root(
    table: Map<u64, (BtrfsKey, Seq<char>)>,
    cur: u64,
    fuel: nat,
)
    requires
        spec_build_path(table, cur, fuel) is Ok,
    ensures
        chain_reaches_root(table, cur, fuel),
    decreases fuel,
{
    if table.dom().contains(cur) && table[cur].0.offset != cur && fuel > 0 {
        lemma_build_path_reaches_root(table, table[cur].0.offset, (fuel - 1) as nat);
    }
}

/// Root termination, other direction: a self-referential root reachable
/// within the fuel makes the back-chain succeed.
pub proof fn lemma_reachable_root_builds(
    table: Map<u64, (BtrfsKey, Seq<char>)>,
    cur: u64,
    n: nat,
    fuel: nat,
)
    requires
        chain_reaches_root(table, cur, n),
        n <= fuel,
    ensures
        spec_build_path(table, cur, fuel) is Ok,
    decreases n,
{
    if table[cur].0.offset != cur {
        lemma_reachable_root_builds(table, table[cur].0.offset, (n - 1) as nat, (fuel - 1) as nat);
    }
}

/// The number of steps up the parent chain from `cur` to a
/// self-referential root, looking at most `n` steps ahead; `-1` when no
/// root is reached within `n` steps.
pub open spec fn root_distance(table: Map<u64, (BtrfsKey, Seq<char>)>, cur: u64, n: nat) -> int
    decreases n,
{
    if !table.dom().contains(cur) {
        -1
    } else if table[cur].0.offset == cur {
        0
    } else if n == 0 {
        -1
    } else {
        let d = root_distance(table, table[cur].0.offset, (n - 1) as nat);
        if d < 0 {
            -1
        } else {
            d + 1
        }
    }
}

proof fn lemma_distance_bounds(table: Map<u64, (BtrfsKey, Seq<char>)>, cur: u64, n: nat)
    ensures
        root_distance(table, cur, n) <= n,
        chain_reaches_root(table, cur, n) <==> root_distance(table, cur, n) >= 0,
    decreases n,
{
    if table.dom().contains(cur) && table[cur].0.offset != cur && n > 0 {
        lemma_distance_bounds(table, table[cur].0.offset, (n - 1) as nat);
    }
}

/// The distance is stable once found: more lookahead does not change it.
proof fn lemma_distance_stable(table: Map<u64, (BtrfsKey, Seq<char>)>, cur: u64, n: nat, n2: nat)
    requires
        root_distance(table, cur, n) >= 0,
        n <= n2,
    ensures
        root_distance(table, cur, n2) == root_distance(table, cur, n),
    decreases n,
{
    if table.dom().contains(cur) && table[cur].0.offset != cur {
        lemma_distance_stable(table, table[cur].0.offset, (n - 1) as nat, (n2 - 1) as nat);
    }
}

/// Pigeonhole core: the chain from `cur` to the root visits each inode at
/// most once (an inode's distance to the root pins its position in the
/// chain), so walking past `seen`, a set of inodes strictly farther from
/// the root than `cur`, the root is reached within the number of table
/// entries not in `seen`.
proof fn lemma_reach_avoiding(
    table: Map<u64, (BtrfsKey, Seq<char>)>,
    cur: u64,
    n0: nat,
    seen: Set<u64>,
)
    requires
        table.dom().finite(),
        root_distance(table, cur, n0) >= 0,
        seen.finite(),
        seen.subset_of(table.dom()),
        forall|x: u64|
            seen.contains(x) ==> #[trigger] root_distance(table, x, n0) > root_distance(
                table,
                cur,
                n0,
            ),
    ensures
        chain_reaches_root(table, cur, (table.dom().len() - seen.len()) as nat),
    decreases root_distance(table, cur, n0),
{
    if !seen.contains(cur) {
    } else {
        assert(root_distance(table, cur, n0) > root_distance(table, cur, n0));
    }
    vstd::set_lib::lemma_len_subset(seen.insert(cur), table.dom());
    let remaining = (table.dom().len() - seen.len()) as nat;
    if table[cur].0.offset == cur {
    } else {
        let parent = table[cur].0.offset;
        assert(root_distance(table, parent, (n0 - 1) as nat) == root_distance(table, cur, n0)
            - 1);
        lemma_distance_stable(table, parent, (n0 - 1) as nat, n0);
        lemma_reach_avoiding(table, parent, n0, seen.insert(cur));
        assert(chain_reaches_root(table, parent, (remaining - 1) as nat));
    }
}

/// A root reachable in any number of steps is reachable within as many
/// steps as the table has entries: the chain to the root never revisits an
/// inode.
pub proof fn lemma_reach_within_table_len(
    table: Map<u64, (BtrfsKey, Seq<char>)>,
    cur: u64,
    n: nat,
)
    requires
        table.dom().finite(),
        chain_reaches_root(table, cur, n),
    ensures
        chain_reaches_root(table, cur, table.dom().len()),
{
    lemma_distance_bounds(table, cur, n);
    lemma_reach_avoiding(table, cur, n, Set::empty());
    assert(Set::<u64>::empty().len() == 0);
}

/// Root termination: back-chaining with one unit of fuel per table entry
/// (the fuel the path emission pass uses) succeeds exactly when the inode
/// table holds a self-referential root entry reachable from `cur`, in any
/// number of steps.
pub proof fn lemma_build_path_terminates(table: Map<u64, (BtrfsKey, Seq<char>)>, cur: u64)
    requires
        table.dom().finite(),
    ensures
        spec_build_path(table, cur, table.dom().len()) is Ok <==> exists|n: nat|
            chain_reaches_root(table, cur, n),
{
    let fuel = table.dom().len();
    if spec_build_path(table, cur, fuel) is Ok {
        lemma_build_path_reaches_root(table, cur, fuel);
        assert(chain_reaches_root(table, cur, fuel));
    }
    if exists|n: nat| chain_reaches_root(table, cur, n) {
        let n = choose|n: nat| chain_reaches_root(table, cur, n);
        lemma_reach_within_table_len(table, cur, n);
        lemma_reachable_root_builds(table, cur, fuel, fuel);
    }
}

} // verus!
