//! End-to-end walks over synthetic single-device images: superblock
//! decoding, chunk map construction, and file path listing.
use btrfs_internals::ctree::{parse_sys_chunk_array, read_chunk_tree_root, walk_chunk_root_tree};
use btrfs_internals::fs_tree::list_file_paths;
use btrfs_internals::superblock::BtrfsSuperblock;
use btrfs_internals::BtrfsError;

const SB: usize = 0x10000;
const HEADER_SIZE: usize = 101;
const ITEM_SIZE: usize = 25;
const KEYPTR_SIZE: usize = 33;

fn put_u16(b: &mut [u8], off: usize, v: u16) {
    b[off..off + 2].copy_from_slice(&v.to_le_bytes());
}

fn put_u32(b: &mut [u8], off: usize, v: u32) {
    b[off..off + 4].copy_from_slice(&v.to_le_bytes());
}

fn put_u64(b: &mut [u8], off: usize, v: u64) {
    b[off..off + 8].copy_from_slice(&v.to_le_bytes());
}

/// Superblock with one bootstrap chunk record.
fn write_superblock(
    img: &mut [u8],
    node_size: u32,
    chunk_root: u64,
    root: u64,
    chunk: (u64, u64, u64),
) {
    img[SB + 0x40..SB + 0x48].copy_from_slice(b"_BHRfS_M");
    put_u64(img, SB + 0x50, root);
    put_u64(img, SB + 0x58, chunk_root);
    put_u32(img, SB + 0x94, node_size);
    put_u32(img, SB + 0xa0, 97);
    let a = SB + 0x32b;
    let (logical, size, phys) = chunk;
    put_u64(img, a, 1); // key objectid
    img[a + 8] = 228; // key type: chunk item
    put_u64(img, a + 9, logical); // key offset: logical start
    put_u64(img, a + 17, size); // chunk length
    put_u16(img, a + 17 + 44, 1); // num_stripes
    put_u64(img, a + 17 + 56, phys); // stripe[0].offset
}

fn write_header(img: &mut [u8], block: usize, nritems: u32, level: u8) {
    put_u32(img, block + 96, nritems);
    img[block + 100] = level;
}

fn write_item(
    img: &mut [u8],
    block: usize,
    idx: usize,
    key: (u64, u8, u64),
    off: u32,
    size: u32,
) {
    let p = block + HEADER_SIZE + idx * ITEM_SIZE;
    put_u64(img, p, key.0);
    img[p + 8] = key.1;
    put_u64(img, p + 9, key.2);
    put_u32(img, p + 17, off);
    put_u32(img, p + 21, size);
}

fn write_keyptr(img: &mut [u8], block: usize, idx: usize, blockptr: u64) {
    let p = block + HEADER_SIZE + idx * KEYPTR_SIZE;
    put_u64(img, p, 1);
    img[p + 8] = 228;
    put_u64(img, p + 9, 0);
    put_u64(img, p + 17, blockptr);
    put_u64(img, p + 25, 1);
}

fn write_inode_ref(
    img: &mut [u8],
    block: usize,
    idx: usize,
    payload_off: u32,
    inode: u64,
    parent: u64,
    name: &[u8],
) {
    write_item(img, block, idx, (inode, 12, parent), payload_off, 10 + name.len() as u32);
    let p = block + HEADER_SIZE + payload_off as usize;
    put_u64(img, p, 0); // index
    put_u16(img, p + 8, name.len() as u16);
    img[p + 10..p + 10 + name.len()].copy_from_slice(name);
}

fn write_dir_item(
    img: &mut [u8],
    block: usize,
    idx: usize,
    payload_off: u32,
    dir_inode: u64,
    target: u64,
    file_type: u8,
) {
    write_item(img, block, idx, (dir_inode, 84, 0), payload_off, 30);
    let p = block + HEADER_SIZE + payload_off as usize;
    put_u64(img, p, target); // location objectid
    img[p + 8] = 1; // location type
    put_u64(img, p + 9, 0); // location offset
    img[p + 29] = file_type;
}

/// An image whose one bootstrap chunk maps logicals `[0, 0x10000)` to
/// physical `0x20000`, with an empty chunk tree leaf at logical 0x1000 and
/// a root tree leaf at logical 0x2000 pointing the default subvolume at
/// logical 0x3000.
fn base_image() -> Vec<u8> {
    let mut img = vec![0u8; 0x31000];
    write_superblock(&mut img, 4096, 0x1000, 0x2000, (0, 0x10000, 0x20000));
    // Chunk tree root: empty leaf.
    write_header(&mut img, 0x21000, 0, 0);
    // Root tree: one root item for the default subvolume, tree at 0x3000.
    write_header(&mut img, 0x22000, 1, 0);
    write_item(&mut img, 0x22000, 0, (5, 132, 0), 0x100, 239);
    put_u64(&mut img, 0x22000 + HEADER_SIZE + 0x100 + 176, 0x3000);
    // FS tree: empty leaf until a test fills it.
    write_header(&mut img, 0x23000, 0, 0);
    img
}

#[test]
fn superblock_decode() {
    let img = base_image();
    let mut sb = BtrfsSuperblock::new();
    assert!(sb.check_valid_superblock(&img).is_ok());
    assert_eq!(sb.node_size, 4096);
    assert_eq!(sb.chunk_root, 0x1000);
    assert_eq!(sb.root, 0x2000);
    assert_eq!(sb.sys_chunk_array_size, 97);
    assert_eq!(sb.sys_chunk_array.len(), 2048);
}

#[test]
fn superblock_bad_magic() {
    let mut img = base_image();
    img[SB + 0x40] = b'X';
    let mut sb = BtrfsSuperblock::new();
    assert_eq!(sb.check_valid_superblock(&img), Err(BtrfsError::BadMagic));
}

#[test]
fn superblock_short_image() {
    let img = vec![0u8; 100];
    let mut sb = BtrfsSuperblock::new();
    assert_eq!(sb.check_valid_superblock(&img), Err(BtrfsError::IoError));
}

fn parsed_superblock(img: &Vec<u8>) -> BtrfsSuperblock {
    let mut sb = BtrfsSuperblock::new();
    sb.check_valid_superblock(img).unwrap();
    sb
}

#[test]
fn bootstrap_seeds_one_chunk() {
    let img = base_image();
    let sb = parsed_superblock(&img);
    let tree = parse_sys_chunk_array(&sb).unwrap();
    assert_eq!(tree.len(), 1);
    let (k, phys) = tree.get(0);
    assert_eq!((k.start, k.size, phys), (0, 0x10000, 0x20000));
    assert_eq!(tree.offset(0x1000), Some(0x21000));
}

#[test]
fn bootstrap_zero_stripes_is_fatal() {
    let mut img = base_image();
    put_u16(&mut img, SB + 0x32b + 17 + 44, 0);
    let sb = parsed_superblock(&img);
    assert_eq!(parse_sys_chunk_array(&sb).err(), Some(BtrfsError::BadInvariant));
}

#[test]
fn bootstrap_wrong_item_type_is_fatal() {
    let mut img = base_image();
    img[SB + 0x32b + 8] = 132;
    let sb = parsed_superblock(&img);
    assert_eq!(parse_sys_chunk_array(&sb).err(), Some(BtrfsError::BadItemType));
}

#[test]
fn bootstrap_empty_array_is_fatal() {
    let mut img = base_image();
    put_u32(&mut img, SB + 0xa0, 0);
    let sb = parsed_superblock(&img);
    assert_eq!(parse_sys_chunk_array(&sb).err(), Some(BtrfsError::BadInvariant));
}

#[test]
fn bootstrap_truncated_record_is_fatal() {
    // A bootstrap array too short to hold the record the cursor points at.
    let mut sb = BtrfsSuperblock::new();
    sb.sys_chunk_array = vec![0u8; 50];
    sb.sys_chunk_array_size = 97;
    assert_eq!(parse_sys_chunk_array(&sb).err(), Some(BtrfsError::MalformedBlock));
}

#[test]
fn minimal_image() {
    // One bootstrap chunk mapping logical 0 straight at the superblock
    // block; the chunk tree root there decodes as an empty leaf.  No
    // output, and the chunk map holds exactly the bootstrap entry.
    let mut img = vec![0u8; 0x11000];
    write_superblock(&mut img, 4096, 0, 0, (0, 4096, 0x10000));
    let sb = parsed_superblock(&img);
    let mut cache = parse_sys_chunk_array(&sb).unwrap();
    let root = read_chunk_tree_root(&img, sb.chunk_root, &cache).unwrap();
    walk_chunk_root_tree(&img, &root, &mut cache, sb.node_size).unwrap();
    assert_eq!(cache.len(), 1);
    assert_eq!(list_file_paths(&img), Ok(vec![]));
}

#[test]
fn one_file_subvolume() {
    let mut img = base_image();
    write_header(&mut img, 0x23000, 3, 0);
    write_inode_ref(&mut img, 0x23000, 0, 0x400, 256, 256, b"..");
    write_inode_ref(&mut img, 0x23000, 1, 0x480, 257, 256, b"hello.txt");
    write_dir_item(&mut img, 0x23000, 2, 0x500, 256, 257, 1);
    assert_eq!(list_file_paths(&img), Ok(vec!["/hello.txt".to_string()]));
}

#[test]
fn nested_directory() {
    let mut img = base_image();
    write_header(&mut img, 0x23000, 4, 0);
    write_inode_ref(&mut img, 0x23000, 0, 0x400, 256, 256, b"..");
    write_inode_ref(&mut img, 0x23000, 1, 0x480, 257, 256, b"docs");
    write_inode_ref(&mut img, 0x23000, 2, 0x500, 258, 257, b"readme");
    write_dir_item(&mut img, 0x23000, 3, 0x580, 257, 258, 1);
    assert_eq!(list_file_paths(&img), Ok(vec!["/docs/readme".to_string()]));
}

#[test]
fn non_regular_file_is_not_listed() {
    let mut img = base_image();
    write_header(&mut img, 0x23000, 3, 0);
    write_inode_ref(&mut img, 0x23000, 0, 0x400, 256, 256, b"..");
    write_inode_ref(&mut img, 0x23000, 1, 0x480, 257, 256, b"somedir");
    write_dir_item(&mut img, 0x23000, 2, 0x500, 256, 257, 2); // a directory
    assert_eq!(list_file_paths(&img), Ok(vec![]));
}

#[test]
fn fs_tree_descends_internal_nodes() {
    // FS tree root is an internal node whose one child leaf holds the
    // file: the walk must recurse on the freshly read child block.
    let mut img = base_image();
    write_header(&mut img, 0x23000, 1, 1);
    write_keyptr(&mut img, 0x23000, 0, 0x4000);
    write_header(&mut img, 0x24000, 3, 0);
    write_inode_ref(&mut img, 0x24000, 0, 0x400, 256, 256, b"..");
    write_inode_ref(&mut img, 0x24000, 1, 0x480, 257, 256, b"hello.txt");
    write_dir_item(&mut img, 0x24000, 2, 0x500, 256, 257, 1);
    assert_eq!(list_file_paths(&img), Ok(vec!["/hello.txt".to_string()]));
}

#[test]
fn block_read_past_image_end_is_io_error() {
    // The bootstrap chunk maps the tree blocks beyond the end of the
    // image: the short read is an I/O failure.
    let mut img = vec![0u8; 0x11000];
    write_superblock(&mut img, 4096, 0x1000, 0x2000, (0, 0x10000, 0x100000));
    assert_eq!(list_file_paths(&img), Err(BtrfsError::IoError));
}

#[test]
fn chunk_tree_loader_extends_the_map() {
    let mut img = base_image();
    write_header(&mut img, 0x21000, 2, 0);
    // A leaf item of some other type is ignored by the loader.
    write_item(&mut img, 0x21000, 0, (1, 99, 0), 0x300, 8);
    write_item(&mut img, 0x21000, 1, (1, 228, 0x40000), 0x100, 80);
    let p = 0x21000 + HEADER_SIZE + 0x100;
    put_u64(&mut img, p, 0x1000); // chunk length
    put_u16(&mut img, p + 44, 1); // num_stripes
    put_u64(&mut img, p + 56, 0x2d000); // stripe[0].offset
    let sb = parsed_superblock(&img);
    let mut cache = parse_sys_chunk_array(&sb).unwrap();
    let root = read_chunk_tree_root(&img, sb.chunk_root, &cache).unwrap();
    walk_chunk_root_tree(&img, &root, &mut cache, sb.node_size).unwrap();
    assert_eq!(cache.len(), 2);
    assert_eq!(cache.offset(0x40010), Some(0x2d010));
}

#[test]
fn chunk_tree_descends_internal_nodes() {
    // The chunk tree root is an internal node; its chunk item lives in a
    // child leaf reached through the map built so far.
    let mut img = base_image();
    write_header(&mut img, 0x21000, 1, 1);
    write_keyptr(&mut img, 0x21000, 0, 0x4000);
    write_header(&mut img, 0x24000, 1, 0);
    write_item(&mut img, 0x24000, 0, (1, 228, 0x40000), 0x100, 80);
    let p = 0x24000 + HEADER_SIZE + 0x100;
    put_u64(&mut img, p, 0x1000);
    put_u16(&mut img, p + 44, 1);
    put_u64(&mut img, p + 56, 0x2d000);
    let sb = parsed_superblock(&img);
    let mut cache = parse_sys_chunk_array(&sb).unwrap();
    let root = read_chunk_tree_root(&img, sb.chunk_root, &cache).unwrap();
    walk_chunk_root_tree(&img, &root, &mut cache, sb.node_size).unwrap();
    assert_eq!(cache.len(), 2);
    assert_eq!(cache.offset(0x40000), Some(0x2d000));
}

#[test]
fn overlap_rejection() {
    // The chunk tree leaf repeats the bootstrap chunk: fatal overlap.
    let mut img = base_image();
    write_header(&mut img, 0x21000, 1, 0);
    write_item(&mut img, 0x21000, 0, (1, 228, 0), 0x100, 80);
    let p = 0x21000 + HEADER_SIZE + 0x100;
    put_u64(&mut img, p, 0x10000);
    put_u16(&mut img, p + 44, 1);
    put_u64(&mut img, p + 56, 0x20000);
    assert_eq!(list_file_paths(&img), Err(BtrfsError::OverlapError));
}

#[test]
fn unresolvable_pointer() {
    // A key pointer to a logical address outside every chunk.
    let mut img = base_image();
    write_header(&mut img, 0x21000, 1, 1);
    write_keyptr(&mut img, 0x21000, 0, 0x500000);
    assert_eq!(list_file_paths(&img), Err(BtrfsError::UnresolvableLogical));
}

#[test]
fn non_leaf_root_tree() {
    // The root tree must be a single leaf; level 1 is fatal.
    let mut img = base_image();
    write_header(&mut img, 0x22000, 1, 1);
    assert_eq!(list_file_paths(&img), Err(BtrfsError::BadInvariant));
}

#[test]
fn invalid_utf8_name_is_fatal() {
    let mut img = base_image();
    write_header(&mut img, 0x23000, 1, 0);
    write_inode_ref(&mut img, 0x23000, 0, 0x400, 257, 256, &[0xff, 0xfe]);
    assert_eq!(list_file_paths(&img), Err(BtrfsError::BadUtf8Name));
}

#[test]
fn dangling_inode_ref_is_fatal() {
    let mut img = base_image();
    write_header(&mut img, 0x23000, 2, 0);
    write_inode_ref(&mut img, 0x23000, 0, 0x400, 256, 256, b"..");
    write_dir_item(&mut img, 0x23000, 1, 0x500, 256, 999, 1);
    assert_eq!(list_file_paths(&img), Err(BtrfsError::DanglingInodeRef));
}

#[test]
fn parent_cycle_is_fatal() {
    // Two inodes referring to each other never reach a root.
    let mut img = base_image();
    write_header(&mut img, 0x23000, 3, 0);
    write_inode_ref(&mut img, 0x23000, 0, 0x400, 257, 258, b"a");
    write_inode_ref(&mut img, 0x23000, 1, 0x480, 258, 257, b"b");
    write_dir_item(&mut img, 0x23000, 2, 0x500, 256, 257, 1);
    assert_eq!(list_file_paths(&img), Err(BtrfsError::DanglingInodeRef));
}

#[test]
fn item_offset_out_of_range_is_fatal() {
    let mut img = base_image();
    write_header(&mut img, 0x23000, 1, 0);
    // An inode-ref item whose payload offset points past the block.
    write_item(&mut img, 0x23000, 0, (257, 12, 256), 0x2000, 12);
    assert_eq!(list_file_paths(&img), Err(BtrfsError::MalformedBlock));
}

#[test]
fn repeated_runs_agree() {
    let mut img = base_image();
    write_header(&mut img, 0x23000, 4, 0);
    write_inode_ref(&mut img, 0x23000, 0, 0x400, 256, 256, b"..");
    write_inode_ref(&mut img, 0x23000, 1, 0x480, 257, 256, b"docs");
    write_inode_ref(&mut img, 0x23000, 2, 0x500, 258, 257, b"readme");
    write_dir_item(&mut img, 0x23000, 3, 0x580, 257, 258, 1);
    let first = list_file_paths(&img).unwrap();
    let second = list_file_paths(&img).unwrap();
    assert_eq!(first, second);
    assert_eq!(first, vec!["/docs/readme".to_string()]);
}

#[test]
fn chain_as_deep_as_the_table_terminates() {
    // Every table entry sits on the chain: the back-chain still reaches
    // the root.
    let mut img = base_image();
    write_header(&mut img, 0x23000, 5, 0);
    write_inode_ref(&mut img, 0x23000, 0, 0x400, 256, 256, b"..");
    write_inode_ref(&mut img, 0x23000, 1, 0x480, 257, 256, b"a");
    write_inode_ref(&mut img, 0x23000, 2, 0x500, 258, 257, b"b");
    write_inode_ref(&mut img, 0x23000, 3, 0x580, 259, 258, b"c");
    write_dir_item(&mut img, 0x23000, 4, 0x600, 258, 259, 1);
    assert_eq!(list_file_paths(&img), Ok(vec!["/a/b/c".to_string()]));
}

#[test]
fn hardlinks_last_ref_wins() {
    // Two references for one inode: the later one names the path.
    let mut img = base_image();
    write_header(&mut img, 0x23000, 4, 0);
    write_inode_ref(&mut img, 0x23000, 0, 0x400, 256, 256, b"..");
    write_inode_ref(&mut img, 0x23000, 1, 0x480, 257, 256, b"first");
    write_inode_ref(&mut img, 0x23000, 2, 0x500, 257, 256, b"second");
    write_dir_item(&mut img, 0x23000, 3, 0x580, 256, 257, 1);
    assert_eq!(list_file_paths(&img), Ok(vec!["/second".to_string()]));
}
