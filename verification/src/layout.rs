//! Constants of the on-disk BFS layout.
//!
//! ```text
//! block 0:        superblock
//! blocks 1..=63:  inode table (8 inodes per block, inodes 2..=505)
//! blocks 64..:    file data + root directory entries
//! ```
use vstd::prelude::*;

verus! {

/// Size of a block in bytes.
pub const BSIZE: usize = 512;

/// Magic number at the start of the superblock.
pub const MAGIC: u32 = 0x1bad_face;

/// Inode number of the root directory.
pub const ROOT_INO: u32 = 2;

/// Highest inode number.
pub const LAST_INO: u32 = 505;

/// Number of inode records per block of the inode table.
pub const INODES_PER_BLOCK: u32 = 8;

/// Size of one inode record in bytes.
pub const INODE_SIZE: usize = 64;

/// Size of one directory entry in bytes.
pub const DIRENT_SIZE: usize = 16;

/// Length of a name in a directory entry.
pub const NAMELEN: usize = 14;

/// Inode type of a regular file.
pub const VREG: u32 = 1;

/// Inode type of a directory.
pub const VDIR: u32 = 2;

/// `S_IFREG` of `<sys/stat.h>`, encoded into the inode mode field.
pub const S_IFREG: u32 = 0o100_000;

/// `S_IFDIR` of `<sys/stat.h>`.
pub const S_IFDIR: u32 = 0o040_000;

/// Number of inode slots (inodes `ROOT_INO..=LAST_INO`).
pub const INODE_COUNT: u32 = 504;

/// First block of the data area: the superblock and the inode table come before it.
pub const DATA_START: u32 = 64;

/// `a / b` rounded up.
pub open spec fn ceil_div(a: nat, b: nat) -> nat {
    if a % b == 0 {
        a / b
    } else {
        a / b + 1
    }
}

/// `a / b` rounded up.
pub fn div_ceil(a: u32, b: u32) -> (r: u32)
    requires
        b > 0,
    ensures
        r == ceil_div(a as nat, b as nat),
{
    if a % b == 0 {
        a / b
    } else {
        assert(b != 1);
        assert(a / b < 0xffff_ffff) by (nonlinear_arith)
            requires
                b > 1,
                a <= 0xffff_ffff,
        ;
        a / b + 1
    }
}

} // verus!
