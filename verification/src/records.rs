//! On-disk record layout: constants, little-endian field readers, and the
//! fixed-size records that prefix every B-tree block.  Everything on disk is
//! packed little-endian with no padding, so each record is decoded field by
//! field from its byte offset.
use vstd::prelude::*;

verus! {

/// Key type of a chunk item in the chunk tree or the bootstrap array.
pub const BTRFS_CHUNK_ITEM_KEY: u8 = 228;

/// Key type of a root item in the root tree.
pub const BTRFS_ROOT_ITEM_KEY: u8 = 132;

/// Key type of an inode reference in an FS tree.
pub const BTRFS_INODE_REF_KEY: u8 = 12;

/// Key type of a directory item in an FS tree.
pub const BTRFS_DIR_ITEM_KEY: u8 = 84;

/// Object id of the default filesystem subvolume's root item.
pub const BTRFS_FS_TREE_OBJECTID: u64 = 5;

/// File-type byte of a regular file in a directory item.
pub const BTRFS_FT_REG_FILE: u8 = 1;

/// Physical offset of the primary superblock.
pub const BTRFS_SUPERBLOCK_OFFSET: usize = 0x10000;

/// Bytes read for the superblock.
pub const BTRFS_SUPERBLOCK_SIZE: usize = 4096;

/// The magic bytes `_BHRfS_M`, read as a little-endian word.
pub const BTRFS_MAGIC_LE: u64 = 0x4d5f_5366_5248_425f;

/// `{ objectid: u64, ty: u8, offset: u64 }`.
pub const KEY_SIZE: usize = 17;

/// Leaf item record: key, payload offset (`u32`), payload size (`u32`).
pub const ITEM_SIZE: usize = 25;

/// Internal node record: key, child block pointer (`u64`), generation (`u64`).
pub const KEYPTR_SIZE: usize = 33;

/// Tree block header: checksum, fsid, bytenr, flags, chunk tree uuid,
/// generation, owner, nritems (`u32`), level (`u8`).
pub const HEADER_SIZE: usize = 101;

/// Chunk item through its first stripe.
pub const CHUNK_PREFIX_SIZE: usize = 80;

/// One stripe record: devid, offset, device uuid.
pub const STRIPE_SIZE: usize = 32;

/// Fixed part of an inode reference: index (`u64`), name length (`u16`).
pub const INODE_REF_SIZE: usize = 10;

/// Directory item: location key, transid, data length, name length, type.
pub const DIR_ITEM_SIZE: usize = 30;

/// Offset of `nritems` inside a tree block header.
pub const HEADER_NRITEMS_OFF: usize = 96;

/// Offset of `level` inside a tree block header.
pub const HEADER_LEVEL_OFF: usize = 100;

/// Offset of `length` inside a chunk item.
pub const CHUNK_LENGTH_OFF: usize = 0;

/// Offset of `num_stripes` inside a chunk item.
pub const CHUNK_NUM_STRIPES_OFF: usize = 44;

/// Offset of `stripe[0].offset` inside a chunk item.
pub const CHUNK_STRIPE0_OFFSET_OFF: usize = 56;

/// Offset of `bytenr` inside a root item payload.
pub const ROOT_ITEM_BYTENR_OFF: usize = 176;

/// Offset of `name_len` inside an inode reference.
pub const INODE_REF_NAME_LEN_OFF: usize = 8;

/// Offset of the file-type byte inside a directory item.
pub const DIR_ITEM_TYPE_OFF: usize = 29;

/// Offset of the magic bytes inside the superblock.
pub const SB_MAGIC_OFF: usize = 0x40;

/// Offset of the root tree root's logical address inside the superblock.
pub const SB_ROOT_OFF: usize = 0x50;

/// Offset of the chunk tree root's logical address inside the superblock.
pub const SB_CHUNK_ROOT_OFF: usize = 0x58;

/// Offset of `node_size` inside the superblock.
pub const SB_NODESIZE_OFF: usize = 0x94;

/// Offset of `sys_chunk_array_size` inside the superblock.
pub const SB_SYS_CHUNK_ARRAY_SIZE_OFF: usize = 0xa0;

/// Offset of the bootstrap chunk array inside the superblock.
pub const SB_SYS_CHUNK_ARRAY_OFF: usize = 0x32b;

/// Length of the bootstrap chunk array region.
pub const SB_SYS_CHUNK_ARRAY_LEN: usize = 2048;

/// The little-endian `u16` at byte offset `off` of `s`.
pub open spec fn spec_le16_at(s: Seq<u8>, off: int) -> u16 {
    (s[off] as u16) | ((s[off + 1] as u16) << 8)
}

/// The little-endian `u32` at byte offset `off` of `s`.
pub open spec fn spec_le32_at(s: Seq<u8>, off: int) -> u32 {
    (s[off] as u32) | ((s[off + 1] as u32) << 8) | ((s[off + 2] as u32) << 16) | ((s[off
        + 3] as u32) << 24)
}

/// The little-endian `u64` at byte offset `off` of `s`.
pub open spec fn spec_le64_at(s: Seq<u8>, off: int) -> u64 {
    (s[off] as u64) | ((s[off + 1] as u64) << 8) | ((s[off + 2] as u64) << 16) | ((s[off
        + 3] as u64) << 24) | ((s[off + 4] as u64) << 32) | ((s[off + 5] as u64) << 40) | ((s[off
        + 6] as u64) << 48) | ((s[off + 7] as u64) << 56)
}

pub fn le16_at(buf: &Vec<u8>, off: usize) -> (r: u16)
    requires
        off + 2 <= buf.len(),
    ensures
        r == spec_le16_at(buf@, off as int),
{
    (buf[off] as u16) | ((buf[off + 1] as u16) << 8)
}

pub fn le32_at(buf: &Vec<u8>, off: usize) -> (r: u32)
    requires
        off + 4 <= buf.len(),
    ensures
        r == spec_le32_at(buf@, off as int),
{
    (buf[off] as u32) | ((buf[off + 1] as u32) << 8) | ((buf[off + 2] as u32) << 16) | ((buf[off
        + 3] as u32) << 24)
}

pub fn le64_at(buf: &Vec<u8>, off: usize) -> (r: u64)
    requires
        off + 8 <= buf.len(),
    ensures
        r == spec_le64_at(buf@, off as int),
{
    (buf[off] as u64) | ((buf[off + 1] as u64) << 8) | ((buf[off + 2] as u64) << 16) | ((buf[off
        + 3] as u64) << 24) | ((buf[off + 4] as u64) << 32) | ((buf[off + 5] as u64) << 40)
        | ((buf[off + 6] as u64) << 48) | ((buf[off + 7] as u64) << 56)
}

/// A copy of `len` bytes of `buf` starting at `off`.
pub fn read_bytes(buf: &Vec<u8>, off: usize, len: usize) -> (r: Vec<u8>)
    requires
        off + len <= buf.len(),
    ensures
        r@ == buf@.subrange(off as int, off as int + len as int),
{
    let mut r: Vec<u8> = Vec::new();
    let mut i: usize = 0;
    while i < len
        invariant
            off + len <= buf.len(),
            i <= len,
            r@ == buf@.subrange(off as int, off as int + i as int),
        decreases len - i,
    {
        r.push(buf[off + i]);
        proof {
            assert(r@ =~= buf@.subrange(off as int, off as int + (i + 1) as int));
        }
        i = i + 1;
    }
    r
}

/// A vector of `len` zero bytes.
pub fn zero_bytes(len: usize) -> (r: Vec<u8>)
    ensures
        r@ == Seq::new(len as nat, |i: int| 0u8),
{
    let mut r: Vec<u8> = Vec::new();
    let mut i: usize = 0;
    while i < len
        invariant
            i <= len,
            r@ == Seq::new(i as nat, |j: int| 0u8),
        decreases len - i,
    {
        r.push(0u8);
        proof {
            assert(r@ =~= Seq::new((i + 1) as nat, |j: int| 0u8));
        }
        i = i + 1;
    }
    r
}

/// An item key: `{ objectid, ty, offset }`.  The meaning of `offset` is
/// type-specific: the logical start for chunk items, the parent inode
/// number for inode references.
#[derive(Clone, Copy, Debug, PartialEq, Eq, Structural)]
pub struct BtrfsKey {
    pub objectid: u64,
    pub ty: u8,
    pub offset: u64,
}

pub open spec fn spec_key_at(s: Seq<u8>, off: int) -> BtrfsKey {
    BtrfsKey {
        objectid: spec_le64_at(s, off),
        ty: s[off + 8],
        offset: spec_le64_at(s, off + 9),
    }
}

pub fn key_at(buf: &Vec<u8>, off: usize) -> (r: BtrfsKey)
    requires
        off + KEY_SIZE <= buf.len(),
    ensures
        r == spec_key_at(buf@, off as int),
{
    BtrfsKey { objectid: le64_at(buf, off), ty: buf[off + 8], offset: le64_at(buf, off + 9) }
}

/// The consumed part of a tree block header: the item count and the level
/// (`0` marks a leaf).
#[derive(Clone, Copy, Debug, PartialEq, Eq, Structural)]
pub struct BtrfsHeader {
    pub nritems: u32,
    pub level: u8,
}

pub open spec fn spec_header_at(s: Seq<u8>, off: int) -> BtrfsHeader {
    BtrfsHeader {
        nritems: spec_le32_at(s, off + HEADER_NRITEMS_OFF as int),
        level: s[off + HEADER_LEVEL_OFF as int],
    }
}

pub fn header_at(buf: &Vec<u8>, off: usize) -> (r: BtrfsHeader)
    requires
        off + HEADER_SIZE <= buf.len(),
    ensures
        r == spec_header_at(buf@, off as int),
{
    BtrfsHeader {
        nritems: le32_at(buf, off + HEADER_NRITEMS_OFF),
        level: buf[off + HEADER_LEVEL_OFF],
    }
}

/// A leaf item record: key, then the payload's offset and size counted
/// from the end of the header.
#[derive(Clone, Copy, Debug, PartialEq, Eq, Structural)]
pub struct BtrfsItem {
    pub key: BtrfsKey,
    pub offset: u32,
    pub size: u32,
}

pub open spec fn spec_item_at(s: Seq<u8>, off: int) -> BtrfsItem {
    BtrfsItem {
        key: spec_key_at(s, off),
        offset: spec_le32_at(s, off + KEY_SIZE as int),
        size: spec_le32_at(s, off + KEY_SIZE as int + 4),
    }
}

pub fn item_at(buf: &Vec<u8>, off: usize) -> (r: BtrfsItem)
    requires
        off + ITEM_SIZE <= buf.len(),
    ensures
        r == spec_item_at(buf@, off as int),
{
    BtrfsItem {
        key: key_at(buf, off),
        offset: le32_at(buf, off + KEY_SIZE),
        size: le32_at(buf, off + KEY_SIZE + 4),
    }
}

/// An internal node record: key, child block pointer (a logical address),
/// and generation.
#[derive(Clone, Copy, Debug, PartialEq, Eq, Structural)]
pub struct BtrfsKeyPtr {
    pub key: BtrfsKey,
    pub blockptr: u64,
    pub generation: u64,
}

pub open spec fn spec_keyptr_at(s: Seq<u8>, off: int) -> BtrfsKeyPtr {
    BtrfsKeyPtr {
        key: spec_key_at(s, off),
        blockptr: spec_le64_at(s, off + KEY_SIZE as int),
        generation: spec_le64_at(s, off + KEY_SIZE as int + 8),
    }
}

pub fn keyptr_at(buf: &Vec<u8>, off: usize) -> (r: BtrfsKeyPtr)
    requires
        off + KEYPTR_SIZE <= buf.len(),
    ensures
        r == spec_keyptr_at(buf@, off as int),
{
    BtrfsKeyPtr {
        key: key_at(buf, off),
        blockptr: le64_at(buf, off + KEY_SIZE),
        generation: le64_at(buf, off + KEY_SIZE + 8),
    }
}

/// The consumed part of a chunk item: the length of the logical range, the
/// stripe count, and the physical offset of the first stripe.
#[derive(Clone, Copy, Debug, PartialEq, Eq, Structural)]
pub struct BtrfsChunk {
    pub length: u64,
    pub num_stripes: u16,
    pub stripe_offset: u64,
}

pub open spec fn spec_chunk_at(s: Seq<u8>, off: int) -> BtrfsChunk {
    BtrfsChunk {
        length: spec_le64_at(s, off + CHUNK_LENGTH_OFF as int),
        num_stripes: spec_le16_at(s, off + CHUNK_NUM_STRIPES_OFF as int),
        stripe_offset: spec_le64_at(s, off + CHUNK_STRIPE0_OFFSET_OFF as int),
    }
}

pub fn chunk_at(buf: &Vec<u8>, off: usize) -> (r: BtrfsChunk)
    requires
        off + CHUNK_PREFIX_SIZE <= buf.len(),
    ensures
        r == spec_chunk_at(buf@, off as int),
{
    BtrfsChunk {
        length: le64_at(buf, off + CHUNK_LENGTH_OFF),
        num_stripes: le16_at(buf, off + CHUNK_NUM_STRIPES_OFF),
        stripe_offset: le64_at(buf, off + CHUNK_STRIPE0_OFFSET_OFF),
    }
}

/// The fixed part of an inode reference; `name_len` bytes of name follow it.
#[derive(Clone, Copy, Debug, PartialEq, Eq, Structural)]
pub struct BtrfsInodeRef {
    pub index: u64,
    pub name_len: u16,
}

pub open spec fn spec_inode_ref_at(s: Seq<u8>, off: int) -> BtrfsInodeRef {
    BtrfsInodeRef {
        index: spec_le64_at(s, off),
        name_len: spec_le16_at(s, off + INODE_REF_NAME_LEN_OFF as int),
    }
}

pub fn inode_ref_at(buf: &Vec<u8>, off: usize) -> (r: BtrfsInodeRef)
    requires
        off + INODE_REF_SIZE <= buf.len(),
    ensures
        r == spec_inode_ref_at(buf@, off as int),
{
    BtrfsInodeRef {
        index: le64_at(buf, off),
        name_len: le16_at(buf, off + INODE_REF_NAME_LEN_OFF),
    }
}

/// The consumed part of a directory item: the key of the target inode and
/// the file-type byte.
#[derive(Clone, Copy, Debug, PartialEq, Eq, Structural)]
pub struct BtrfsDirItem {
    pub location: BtrfsKey,
    pub ty: u8,
}

pub open spec fn spec_dir_item_at(s: Seq<u8>, off: int) -> BtrfsDirItem {
    BtrfsDirItem { location: spec_key_at(s, off), ty: s[off + DIR_ITEM_TYPE_OFF as int] }
}

pub fn dir_item_at(buf: &Vec<u8>, off: usize) -> (r: BtrfsDirItem)
    requires
        off + DIR_ITEM_SIZE <= buf.len(),
    ensures
        r == spec_dir_item_at(buf@, off as int),
{
    BtrfsDirItem { location: key_at(buf, off), ty: buf[off + DIR_ITEM_TYPE_OFF] }
}

} // verus!
