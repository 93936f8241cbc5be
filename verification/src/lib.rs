//! Read-only introspection of a copy-on-write B-tree filesystem image.
//!
//! Given the raw bytes of a single-device image, the library reconstructs the
//! logical-to-physical address mapping from the superblock's bootstrap chunk
//! array and the chunk B-tree, walks the metadata trees, and lists the paths
//! of the regular files in the default filesystem subvolume.  Opening the
//! image and printing belong to the enclosing program; everything here works
//! on plain byte vectors.
use vstd::prelude::*;

pub mod chunk_tree;
pub mod records;
pub mod superblock;
pub mod ctree;
pub mod fs_tree;

verus! {

/// `x` when it is non-negative, else `0`: a well-founded measure for
/// recursions whose raw measure may step past zero.
pub open spec fn clamp_nonneg(x: int) -> int {
    if x < 0 {
        0
    } else {
        x
    }
}

/// The fatal error kinds a walk over an image can surface.  Nothing is
/// recovered locally: every error propagates to the caller unchanged.
#[derive(Clone, Copy, Debug, PartialEq, Eq, Structural)]
pub enum BtrfsError {
    /// A read past the end of the image (the analogue of a short read).
    IoError,
    /// The superblock magic bytes do not match.
    BadMagic,
    /// A record of an unexpected type where only one type is allowed.
    BadItemType,
    /// A structural invariant of the format is broken (zero stripes,
    /// a root tree that is not a leaf, an empty bootstrap array).
    BadInvariant,
    /// A chunk insertion whose logical range overlaps an existing chunk.
    OverlapError,
    /// A logical address not covered by any chunk map entry.
    UnresolvableLogical,
    /// An inode back-chain that leaves the inode table or never reaches
    /// a self-referential root.
    DanglingInodeRef,
    /// An inode name that is not valid UTF-8.
    BadUtf8Name,
    /// An item offset or count that does not fit inside its block.
    MalformedBlock,
}

} // verus!
