//! The superblock: a fixed-offset, fixed-size record holding the node size,
//! the logical addresses of the chunk tree and root tree roots, and the
//! bootstrap chunk array that seeds the chunk map.
use vstd::prelude::*;
use crate::BtrfsError;
use crate::records::{
    le32_at, le64_at, read_bytes, spec_le32_at, spec_le64_at, BTRFS_MAGIC_LE,
    BTRFS_SUPERBLOCK_OFFSET, BTRFS_SUPERBLOCK_SIZE, SB_CHUNK_ROOT_OFF, SB_MAGIC_OFF,
    SB_NODESIZE_OFF, SB_ROOT_OFF, SB_SYS_CHUNK_ARRAY_LEN, SB_SYS_CHUNK_ARRAY_OFF,
    SB_SYS_CHUNK_ARRAY_SIZE_OFF,
};

verus! {

/// The decoded fields of the superblock that the rest of the walk consumes.
/// Numeric fields are little-endian on disk.
pub struct BtrfsSuperblock {
    /// Size in bytes of every tree block but the chunk tree root.
    pub node_size: u32,
    /// The packed bootstrap chunk records embedded in the superblock.
    pub sys_chunk_array: Vec<u8>,
    /// How many bytes of `sys_chunk_array` are in use.
    pub sys_chunk_array_size: u32,
    /// Logical address of the chunk tree root block.
    pub chunk_root: u64,
    /// Logical address of the root tree root block.
    pub root: u64,
}

/// Whether `img` is long enough to hold the superblock record at its fixed
/// physical offset.
pub open spec fn spec_sb_in_bounds(img: Seq<u8>) -> bool {
    BTRFS_SUPERBLOCK_OFFSET + BTRFS_SUPERBLOCK_SIZE <= img.len()
}

/// Whether the magic bytes at their documented position match.
pub open spec fn spec_sb_magic_ok(img: Seq<u8>) -> bool {
    spec_le64_at(img, BTRFS_SUPERBLOCK_OFFSET as int + SB_MAGIC_OFF as int) == BTRFS_MAGIC_LE
}

/// The `node_size` field of the superblock held in `img`.
pub open spec fn spec_sb_node_size(img: Seq<u8>) -> u32 {
    spec_le32_at(img, BTRFS_SUPERBLOCK_OFFSET as int + SB_NODESIZE_OFF as int)
}

/// The `sys_chunk_array_size` field of the superblock held in `img`.
pub open spec fn spec_sb_sys_chunk_array_size(img: Seq<u8>) -> u32 {
    spec_le32_at(img, BTRFS_SUPERBLOCK_OFFSET as int + SB_SYS_CHUNK_ARRAY_SIZE_OFF as int)
}

/// The `chunk_root` field of the superblock held in `img`.
pub open spec fn spec_sb_chunk_root(img: Seq<u8>) -> u64 {
    spec_le64_at(img, BTRFS_SUPERBLOCK_OFFSET as int + SB_CHUNK_ROOT_OFF as int)
}

/// The `root` field of the superblock held in `img`.
pub open spec fn spec_sb_root(img: Seq<u8>) -> u64 {
    spec_le64_at(img, BTRFS_SUPERBLOCK_OFFSET as int + SB_ROOT_OFF as int)
}

/// The bootstrap chunk array region of the superblock held in `img`.
pub open spec fn spec_sb_sys_chunk_array(img: Seq<u8>) -> Seq<u8> {
    img.subrange(
        BTRFS_SUPERBLOCK_OFFSET as int + SB_SYS_CHUNK_ARRAY_OFF as int,
        BTRFS_SUPERBLOCK_OFFSET as int + SB_SYS_CHUNK_ARRAY_OFF as int
            + SB_SYS_CHUNK_ARRAY_LEN as int,
    )
}

impl BtrfsSuperblock {
    /// An all-zero superblock, to be filled by `check_valid_superblock`.
    pub fn new() -> (r: BtrfsSuperblock)
        ensures
            r.node_size == 0,
            r.sys_chunk_array@ == Seq::<u8>::empty(),
            r.sys_chunk_array_size == 0,
            r.chunk_root == 0,
            r.root == 0,
    {
        BtrfsSuperblock {
            node_size: 0,
            sys_chunk_array: Vec::new(),
            sys_chunk_array_size: 0,
            chunk_root: 0,
            root: 0,
        }
    }

    /// Reads the superblock record from the image and decodes it into
    /// `self`.  An image too short for the record is an I/O failure; wrong
    /// magic bytes are fatal.  On either error `self` is left unchanged.
    pub fn check_valid_superblock(&mut self, image: &Vec<u8>) -> (r: Result<(), BtrfsError>)
        ensures
            !spec_sb_in_bounds(image@) ==> {
                &&& r == Err::<(), BtrfsError>(BtrfsError::IoError)
                &&& *final(self) == *old(self)
            },
            spec_sb_in_bounds(image@) && !spec_sb_magic_ok(image@) ==> {
                &&& r == Err::<(), BtrfsError>(BtrfsError::BadMagic)
                &&& *final(self) == *old(self)
            },
            spec_sb_in_bounds(image@) && spec_sb_magic_ok(image@) ==> {
                &&& r == Ok::<(), BtrfsError>(())
                &&& final(self).node_size == spec_sb_node_size(image@)
                &&& final(self).sys_chunk_array_size == spec_sb_sys_chunk_array_size(image@)
                &&& final(self).chunk_root == spec_sb_chunk_root(image@)
                &&& final(self).root == spec_sb_root(image@)
                &&& final(self).sys_chunk_array@ == spec_sb_sys_chunk_array(image@)
            },
    {
        if image.len() < BTRFS_SUPERBLOCK_OFFSET + BTRFS_SUPERBLOCK_SIZE {
            return Err(BtrfsError::IoError);
        }
        if le64_at(image, BTRFS_SUPERBLOCK_OFFSET + SB_MAGIC_OFF) != BTRFS_MAGIC_LE {
            return Err(BtrfsError::BadMagic);
        }
        self.node_size = le32_at(image, BTRFS_SUPERBLOCK_OFFSET + SB_NODESIZE_OFF);
        self.sys_chunk_array_size = le32_at(
            image,
            BTRFS_SUPERBLOCK_OFFSET + SB_SYS_CHUNK_ARRAY_SIZE_OFF,
        );
        self.chunk_root = le64_at(image, BTRFS_SUPERBLOCK_OFFSET + SB_CHUNK_ROOT_OFF);
        self.root = le64_at(image, BTRFS_SUPERBLOCK_OFFSET + SB_ROOT_OFF);
        self.sys_chunk_array = read_bytes(
            image,
            BTRFS_SUPERBLOCK_OFFSET + SB_SYS_CHUNK_ARRAY_OFF,
            SB_SYS_CHUNK_ARRAY_LEN,
        );
        Ok(())
    }
}

} // verus!
