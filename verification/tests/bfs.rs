use mkfs_bfs::dirent::Dirent;
use mkfs_bfs::inode::Inode;
use mkfs_bfs::layout::{BSIZE, DIRENT_SIZE, INODES_PER_BLOCK, LAST_INO, MAGIC, ROOT_INO};
use mkfs_bfs::{Bfs, BfsError};

fn read_u32_le(buf: &[u8], off: usize) -> u32 {
    u32::from_le_bytes(buf[off..off + 4].try_into().unwrap())
}

fn read_u16_le(buf: &[u8], off: usize) -> u16 {
    u16::from_le_bytes(buf[off..off + 2].try_into().unwrap())
}

fn finish(bfs: Bfs) -> Vec<u8> {
    let mut bytes = Vec::new();
    bfs.write_to(&mut bytes).unwrap();
    bytes
}

/// Byte offset of the inode record of inode `ino`.
fn inode_off(ino: u32) -> usize {
    (ino - ROOT_INO) as usize * 64 + BSIZE
}

#[test]
fn empty_image_has_correct_superblock() {
    let bfs = Bfs::new(1).unwrap();
    let bytes = finish(bfs);
    assert_eq!(bytes.len(), 1024 * 1024);
    assert_eq!(read_u32_le(&bytes, 0), MAGIC);
    // s_start = data area start in bytes
    let inode_blocks = (LAST_INO - ROOT_INO + 1).div_ceil(INODES_PER_BLOCK);
    let expected_start = (1 + inode_blocks) * BSIZE as u32;
    assert_eq!(read_u32_le(&bytes, 4), expected_start);
    // s_end = last byte of last block
    assert_eq!(read_u32_le(&bytes, 8), bytes.len() as u32 - 1);
    // fsname / volume
    assert_eq!(&bytes[28..31], b"bfs");
    assert_eq!(&bytes[34..39], b"basic");
}

#[test]
fn populate_writes_files_and_root_dirent() {
    let mut bfs = Bfs::new(1).unwrap();
    bfs.add_file("hello.txt", b"hi there\n", 0o100644, 1000, 1000).unwrap();
    let mut bytes = Vec::new();
    let stats = bfs.write_to(&mut bytes).unwrap();
    // ".", "..", "hello.txt"
    assert_eq!(stats.entries, 3);

    // Root dir starts at the data area; it contains 3 dirents = 48 bytes.
    let root_inode_off = BSIZE; // inode 2 at byte 512
    let root_sblock = read_u32_le(&bytes, root_inode_off + 4);
    let dir_off = (root_sblock as usize) * BSIZE;
    // Third dirent has the file's name in bytes 2..16.
    let third_name = &bytes[dir_off + 2 * DIRENT_SIZE + 2..dir_off + 3 * DIRENT_SIZE];
    assert!(third_name.starts_with(b"hello.txt"));
}

#[test]
fn duplicate_truncated_name_is_rejected() {
    let mut bfs = Bfs::new(1).unwrap();
    bfs.add_file("aaaaaaaaaaaaaa01", b"", 0o100644, 0, 0).unwrap();
    let err = bfs.add_file("aaaaaaaaaaaaaa02", b"", 0o100644, 0, 0).unwrap_err();
    assert_eq!(err, BfsError::DuplicateName);
    assert!(err.message().contains("duplicate"));
}

#[test]
fn zero_size_is_too_small() {
    assert_eq!(Bfs::new(0).err(), Some(BfsError::FilesystemTooSmall));
    assert_eq!(Bfs::new_at(0, 5).err(), Some(BfsError::FilesystemTooSmall));
}

#[test]
fn create_refuses_zero_size() {
    assert_eq!(Bfs::create(0).err(), Some(BfsError::SizeNotPositive));
    assert!(Bfs::create(1).is_ok());
}

#[test]
fn four_gigabytes_is_too_large() {
    assert_eq!(Bfs::new(4096).err(), Some(BfsError::ImageTooLarge));
    assert_eq!(Bfs::new(u32::MAX).err(), Some(BfsError::ImageTooLarge));
}

#[test]
fn empty_image_root_directory() {
    let bytes = finish(Bfs::new_at(1, 1_700_000_000).unwrap());
    let off = inode_off(ROOT_INO);
    assert_eq!(read_u16_le(&bytes, off), 2);
    assert_eq!(read_u32_le(&bytes, off + 4), 64); // sblock
    assert_eq!(read_u32_le(&bytes, off + 8), 64); // eblock
    assert_eq!(read_u32_le(&bytes, off + 12), 64 * 512 + 32 - 1); // eoffset
    assert_eq!(read_u32_le(&bytes, off + 16), 2); // VDIR
    assert_eq!(read_u32_le(&bytes, off + 20), 0o40755); // mode
    assert_eq!(read_u32_le(&bytes, off + 24), 0); // uid
    assert_eq!(read_u32_le(&bytes, off + 28), 0); // gid
    assert_eq!(read_u32_le(&bytes, off + 32), 2); // nlink
    assert_eq!(read_u32_le(&bytes, off + 36), 1_700_000_000);
    assert_eq!(read_u32_le(&bytes, off + 40), 1_700_000_000);
    assert_eq!(read_u32_le(&bytes, off + 44), 1_700_000_000);
    let dir = 64 * 512;
    assert_eq!(read_u16_le(&bytes, dir), 2);
    assert_eq!(&bytes[dir + 2..dir + 16], b".\0\0\0\0\0\0\0\0\0\0\0\0\0");
    assert_eq!(read_u16_le(&bytes, dir + 16), 2);
    assert_eq!(&bytes[dir + 18..dir + 32], b"..\0\0\0\0\0\0\0\0\0\0\0\0");
    // The next inode slot is unused.
    assert!(bytes[inode_off(3)..inode_off(3) + 64].iter().all(|&b| b == 0));
    // s_from, s_to, s_bfrom, s_bto are all ones.
    for off in [12, 16, 20, 24] {
        assert_eq!(read_u32_le(&bytes, off), u32::MAX);
    }
    assert_eq!(&bytes[28..34], b"bfs\0\0\0");
    assert_eq!(&bytes[34..40], b"basic\0");
}

#[test]
fn file_data_reads_back_from_its_blocks() {
    let mut bfs = Bfs::new_at(1, 7).unwrap();
    let data: Vec<u8> = (0..1000u32).map(|i| (i % 251) as u8).collect();
    bfs.add_file("a.txt", &data, 0o100640, 12, 34).unwrap();
    let bytes = finish(bfs);
    let off = inode_off(3);
    assert_eq!(read_u16_le(&bytes, off), 3);
    assert_eq!(read_u32_le(&bytes, off + 4), 64);
    assert_eq!(read_u32_le(&bytes, off + 8), 65);
    assert_eq!(read_u32_le(&bytes, off + 12), 64 * 512 + 999);
    assert_eq!(read_u32_le(&bytes, off + 16), 1); // VREG
    assert_eq!(read_u32_le(&bytes, off + 20), 0o100640);
    assert_eq!(read_u32_le(&bytes, off + 24), 12);
    assert_eq!(read_u32_le(&bytes, off + 28), 34);
    assert_eq!(read_u32_le(&bytes, off + 32), 1);
    assert_eq!(read_u32_le(&bytes, off + 36), 7);
    assert_eq!(&bytes[64 * 512..64 * 512 + 1000], &data[..]);
    // The rest of the last block stays zero.
    assert!(bytes[64 * 512 + 1000..66 * 512].iter().all(|&b| b == 0));
    // The root directory comes after the file's two blocks.
    assert_eq!(read_u32_le(&bytes, inode_off(2) + 4), 66);
    let dir = 66 * 512;
    assert_eq!(read_u16_le(&bytes, dir + 32), 3);
    assert_eq!(&bytes[dir + 34..dir + 48], b"a.txt\0\0\0\0\0\0\0\0\0");
}

#[test]
fn empty_file_has_no_blocks() {
    let mut bfs = Bfs::new_at(1, 0).unwrap();
    bfs.add_file("empty", b"", 0o100600, 0, 0).unwrap();
    bfs.add_file("next", b"x", 0o100600, 0, 0).unwrap();
    let bytes = finish(bfs);
    assert_eq!(read_u32_le(&bytes, inode_off(3) + 4), 0);
    assert_eq!(read_u32_le(&bytes, inode_off(3) + 8), 0);
    assert_eq!(read_u32_le(&bytes, inode_off(3) + 12), u32::MAX);
    assert_eq!(read_u32_le(&bytes, inode_off(4) + 4), 64);
    assert_eq!(read_u32_le(&bytes, inode_off(4) + 8), 64);
    assert_eq!(read_u32_le(&bytes, inode_off(4) + 12), 64 * 512);
    assert_eq!(bytes[64 * 512], b'x');
}

#[test]
fn earlier_files_are_kept_by_later_ones() {
    let mut bfs = Bfs::new_at(1, 0).unwrap();
    let first = vec![0xAAu8; 512];
    let second = vec![0x55u8; 700];
    bfs.add_file("first", &first, 0o100644, 0, 0).unwrap();
    bfs.add_file("second", &second, 0o100644, 0, 0).unwrap();
    let bytes = finish(bfs);
    assert_eq!(&bytes[64 * 512..65 * 512], &first[..]);
    assert_eq!(read_u32_le(&bytes, inode_off(4) + 4), 65);
    assert_eq!(read_u32_le(&bytes, inode_off(4) + 8), 66);
    assert_eq!(&bytes[65 * 512..65 * 512 + 700], &second[..]);
    assert_eq!(read_u32_le(&bytes, inode_off(2) + 4), 67);
}

#[test]
fn only_permission_bits_of_mode_are_kept() {
    let mut bfs = Bfs::new_at(1, 0).unwrap();
    bfs.add_file("suid", b"", 0o104755, 0, 0).unwrap();
    let bytes = finish(bfs);
    assert_eq!(read_u32_le(&bytes, inode_off(3) + 20), 0o100755);
}

#[test]
fn file_filling_the_data_area_leaves_no_room_for_the_directory() {
    let mut bfs = Bfs::new_at(1, 0).unwrap();
    let too_big = vec![1u8; (2048 - 64) * 512 + 1];
    assert_eq!(bfs.add_file("big", &too_big, 0o100644, 0, 0), Err(BfsError::NoFreeBlocks));
    let fits = vec![1u8; (2048 - 64) * 512];
    bfs.add_file("big", &fits, 0o100644, 0, 0).unwrap();
    let mut out = vec![9u8; 3];
    assert_eq!(bfs.write_to(&mut out).err(), Some(BfsError::NoFreeBlocks));
    assert_eq!(out, vec![9u8; 3]);
}

#[test]
fn refused_file_changes_nothing_but_may_use_its_inode_number() {
    let mut a = Bfs::new_at(1, 0).unwrap();
    let mut b = Bfs::new_at(1, 0).unwrap();
    a.add_file("x", b"abc", 0o100644, 0, 0).unwrap();
    b.add_file("x", b"abc", 0o100644, 0, 0).unwrap();
    // A clashing name changes nothing.
    assert_eq!(a.add_file("x", b"zzz", 0o100644, 0, 0), Err(BfsError::DuplicateName));
    // A file too big for the free blocks uses up inode 4, and nothing else.
    let too_big = vec![1u8; 2048 * 512];
    assert_eq!(a.add_file("y", &too_big, 0o100644, 0, 0), Err(BfsError::NoFreeBlocks));
    assert_eq!(finish(a), finish(b));

    let mut c = Bfs::new_at(1, 0).unwrap();
    c.add_file("x", b"abc", 0o100644, 0, 0).unwrap();
    assert_eq!(c.add_file("y", &too_big, 0o100644, 0, 0), Err(BfsError::NoFreeBlocks));
    c.add_file("z", b"q", 0o100644, 0, 0).unwrap();
    let bytes = finish(c);
    // The entry of "z" names inode 5; slot of inode 4 stays empty.
    let dir = read_u32_le(&bytes, inode_off(2) + 4) as usize * 512;
    assert_eq!(read_u16_le(&bytes, dir + 48), 5);
    assert_eq!(&bytes[dir + 50..dir + 52], b"z\0");
    assert!(bytes[inode_off(4)..inode_off(4) + 64].iter().all(|&b| b == 0));
    assert_eq!(read_u16_le(&bytes, inode_off(5)), 5);
    // Its data follows that of "x".
    assert_eq!(read_u32_le(&bytes, inode_off(5) + 4), 65);
    assert_eq!(bytes[65 * 512], b'q');
}

#[test]
fn at_most_503_files() {
    let mut bfs = Bfs::new_at(1, 0).unwrap();
    for i in 0..503 {
        bfs.add_file(&format!("f{i}"), b"", 0o100644, 0, 0).unwrap();
    }
    assert_eq!(bfs.add_file("one-more", b"", 0o100644, 0, 0), Err(BfsError::NoFreeInodes));
    // A clash is reported before the lack of inodes.
    assert_eq!(bfs.add_file("f7", b"", 0o100644, 0, 0), Err(BfsError::DuplicateName));
    let mut bytes = Vec::new();
    let stats = bfs.write_to(&mut bytes).unwrap();
    assert_eq!(stats.entries, 505);
    assert_eq!(stats.total_blocks, 2048);
    // The last inode, 505, sits at the end of the inode table.
    assert_eq!(read_u16_le(&bytes, inode_off(505)), 505);
    assert_eq!(inode_off(505) + 64, 64 * 512);
}

#[test]
fn same_name_twice_is_refused() {
    let mut bfs = Bfs::new_at(1, 0).unwrap();
    bfs.add_file("kernel", b"k", 0o100644, 0, 0).unwrap();
    assert_eq!(bfs.add_file("kernel", b"", 0o100644, 0, 0), Err(BfsError::DuplicateName));
    assert_eq!(bfs.add_file(".", b"", 0o100644, 0, 0), Err(BfsError::DuplicateName));
    assert_eq!(bfs.add_file("..", b"", 0o100644, 0, 0), Err(BfsError::DuplicateName));
    bfs.add_file("kernel2", b"", 0o100644, 0, 0).unwrap();
    bfs.add_file("kerne", b"", 0o100644, 0, 0).unwrap();
}

#[test]
fn long_names_are_truncated_to_14_bytes() {
    let mut bfs = Bfs::new_at(1, 0).unwrap();
    bfs.add_file("abcdefghijklmnopqrstuvwxyz", b"", 0o100644, 0, 0).unwrap();
    let bytes = finish(bfs);
    let dir = 64 * 512;
    assert_eq!(read_u16_le(&bytes, dir + 32), 3);
    assert_eq!(&bytes[dir + 34..dir + 48], b"abcdefghijklmn");
}

#[test]
fn dirent_new_and_matches_name() {
    let d = Dirent::new(3, "abc");
    assert_eq!(d.ino, 3);
    assert_eq!(&d.name, b"abc\0\0\0\0\0\0\0\0\0\0\0");
    assert!(d.matches_name("abc"));
    assert!(!d.matches_name("abcd"));
    assert!(!d.matches_name("ab"));
    assert!(!d.matches_name("abd"));
    let long = Dirent::new(4, "0123456789abcdefgh");
    assert_eq!(&long.name, b"0123456789abcd");
    assert!(long.matches_name("0123456789abcd"));
    assert!(long.matches_name("0123456789abcdXYZ"));
    assert!(!long.matches_name("0123456789abc"));
}

#[test]
fn dirent_write_into() {
    let d = Dirent::new(0x0102, "hi");
    let mut buf = vec![0xFFu8; 20];
    d.write_into(&mut buf, 2);
    assert_eq!(&buf[..2], &[0xFF, 0xFF]);
    assert_eq!(&buf[2..4], &[0x02, 0x01]);
    assert_eq!(&buf[4..18], b"hi\0\0\0\0\0\0\0\0\0\0\0\0");
    assert_eq!(&buf[18..], &[0xFF, 0xFF]);
}

#[test]
fn inode_new_and_write_into() {
    let i = Inode::new(0x1_0003, 1, 0o100644, 99);
    assert_eq!(i.ino, 3);
    assert_eq!(i.eoffset, u32::MAX);
    assert_eq!(i.nlink, 1);
    let mut buf = vec![0xEEu8; 64];
    i.write_into(&mut buf, 0);
    assert_eq!(read_u16_le(&buf, 0), 3);
    assert_eq!(&buf[2..4], &[0xEE, 0xEE]);
    assert_eq!(read_u32_le(&buf, 4), 0);
    assert_eq!(read_u32_le(&buf, 12), u32::MAX);
    assert_eq!(read_u32_le(&buf, 20), 0o100644);
    assert_eq!(read_u32_le(&buf, 44), 99);
    assert!(buf[48..].iter().all(|&b| b == 0xEE));
}

#[test]
fn write_to_replaces_the_output() {
    let mut out = vec![7u8; 10];
    let stats = Bfs::new_at(2, 0).unwrap().write_to(&mut out).unwrap();
    assert_eq!(out.len(), 2 * 1024 * 1024);
    assert_eq!(stats.total_blocks, 4096);
    assert_eq!(stats.entries, 2);
    assert_eq!(read_u32_le(&out, 8), 2 * 1024 * 1024 - 1);
}

#[test]
fn new_stamps_all_times_alike() {
    let mut bfs = Bfs::new(1).unwrap();
    bfs.add_file("t", b"", 0o100644, 0, 0).unwrap();
    let bytes = finish(bfs);
    let off = inode_off(3);
    let a = read_u32_le(&bytes, off + 36);
    assert_eq!(read_u32_le(&bytes, off + 40), a);
    assert_eq!(read_u32_le(&bytes, off + 44), a);
    assert_eq!(read_u32_le(&bytes, inode_off(2) + 36), a);
}

#[test]
fn error_messages() {
    assert_eq!(BfsError::SizeNotPositive.message(), "size must be positive");
    assert_eq!(BfsError::ImageTooLarge.message(), "image size exceeds 4 GB");
    assert_eq!(BfsError::FilesystemTooSmall.message(), "filesystem too small");
    assert_eq!(BfsError::NoFreeInodes.message(), "no free inodes");
    assert_eq!(BfsError::FileTooLarge.message(), "file exceeds 4 GB");
    assert_eq!(BfsError::NoFreeBlocks.message(), "no free blocks");
}

#[test]
fn check_name_reports_clashes_and_lack_of_inodes() {
    let mut bfs = Bfs::new_at(1, 0).unwrap();
    assert_eq!(bfs.check_name("boot"), Ok(()));
    bfs.add_file("boot", b"b", 0o100644, 0, 0).unwrap();
    assert_eq!(bfs.check_name("boot"), Err(BfsError::DuplicateName));
    assert_eq!(bfs.check_name("."), Err(BfsError::DuplicateName));
    for i in 0..502 {
        bfs.add_file(&format!("g{i}"), b"", 0o100644, 0, 0).unwrap();
    }
    assert_eq!(bfs.check_name("fresh"), Err(BfsError::NoFreeInodes));
    assert_eq!(bfs.check_name("g3"), Err(BfsError::DuplicateName));
}

#[test]
fn every_file_reads_back_after_later_adds() {
    let mut bfs = Bfs::new_at(1, 0).unwrap();
    let files: Vec<Vec<u8>> = (0..5u8).map(|k| vec![k + 1; 300 * (k as usize + 1)]).collect();
    for (k, data) in files.iter().enumerate() {
        bfs.add_file(&format!("file{k}"), data, 0o100644, 0, 0).unwrap();
    }
    let bytes = finish(bfs);
    for (k, data) in files.iter().enumerate() {
        let off = inode_off(3 + k as u32);
        assert_eq!(read_u16_le(&bytes, off) as usize, 3 + k);
        assert_eq!(read_u32_le(&bytes, off + 16), 1);
        let sb = read_u32_le(&bytes, off + 4) as usize;
        let eo = read_u32_le(&bytes, off + 12) as usize;
        assert_eq!(eo + 1 - sb * 512, data.len());
        assert_eq!(&bytes[sb * 512..eo + 1], &data[..]);
    }
}
