//! Inode records of the inode table.
use crate::encoding::{le16, le32, push_u32, put_bytes, put_u16, splice};
use crate::layout::INODE_SIZE;
use vstd::prelude::*;

verus! {

/// An inode: where a file's data lies and its attributes.
///
/// `sblock`/`eblock` are the first and last block of the file's contiguous
/// run, and `eoffset` the byte offset of its last byte (`u32::MAX` for an
/// empty file).
#[derive(Clone, Copy)]
pub struct Inode {
    pub ino: u16,
    pub sblock: u32,
    pub eblock: u32,
    pub eoffset: u32,
    pub vtype: u32,
    pub mode: u32,
    pub uid: u32,
    pub gid: u32,
    pub nlink: u32,
    pub atime: u32,
    pub mtime: u32,
    pub ctime: u32,
}

/// A fresh inode with no data blocks, owned by root, with one link.
pub open spec fn fresh_inode(ino: u32, vtype: u32, mode: u32, now: u32) -> Inode {
    Inode {
        ino: ino as u16,
        sblock: 0,
        eblock: 0,
        eoffset: u32::MAX,
        vtype,
        mode,
        uid: 0,
        gid: 0,
        nlink: 1,
        atime: now,
        mtime: now,
        ctime: now,
    }
}

impl Inode {
    /// The 44 bytes at offset 4 of the on-disk record: every field but `ino`,
    /// each as a little-endian `u32`, in declaration order.
    pub open spec fn field_bytes(self) -> Seq<u8> {
        le32(self.sblock) + le32(self.eblock) + le32(self.eoffset) + le32(self.vtype) + le32(
            self.mode,
        ) + le32(self.uid) + le32(self.gid) + le32(self.nlink) + le32(self.atime) + le32(
            self.mtime,
        ) + le32(self.ctime)
    }

    /// `s` after writing this inode's record at `off`: `ino` in bytes 0..2 and the
    /// other fields in bytes 4..48; bytes 2..4 and 48..64 are left as they were.
    pub open spec fn written(self, s: Seq<u8>, off: int) -> Seq<u8> {
        splice(splice(s, off, le16(self.ino)), off + 4, self.field_bytes())
    }

    /// A fresh inode (see `fresh_inode`); `ino` is kept modulo 2^16.
    pub fn new(ino: u32, vtype: u32, mode: u32, now: u32) -> (r: Inode)
        ensures
            r == fresh_inode(ino, vtype, mode, now),
    {
        Inode {
            ino: ino as u16,
            sblock: 0,
            eblock: 0,
            eoffset: u32::MAX,
            vtype,
            mode,
            uid: 0,
            gid: 0,
            nlink: 1,
            atime: now,
            mtime: now,
            ctime: now,
        }
    }

    /// Writes this inode's record into `buf` at `off`: the 48 bytes from `ino` to
    /// `ctime`; the padding up to 64 bytes is not touched.
    pub fn write_into(&self, buf: &mut Vec<u8>, off: usize)
        requires
            off + 48 <= old(buf).len(),
        ensures
            final(buf)@ == self.written(old(buf)@, off as int),
    {
        put_u16(buf, off, self.ino);
        let mut fields: Vec<u8> = Vec::new();
        push_u32(&mut fields, self.sblock);
        push_u32(&mut fields, self.eblock);
        push_u32(&mut fields, self.eoffset);
        push_u32(&mut fields, self.vtype);
        push_u32(&mut fields, self.mode);
        push_u32(&mut fields, self.uid);
        push_u32(&mut fields, self.gid);
        push_u32(&mut fields, self.nlink);
        push_u32(&mut fields, self.atime);
        push_u32(&mut fields, self.mtime);
        push_u32(&mut fields, self.ctime);
        assert(fields@ =~= self.field_bytes());
        put_bytes(buf, off + 4, fields.as_slice());
    }
}

} // verus!
