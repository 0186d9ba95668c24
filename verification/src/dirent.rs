//! Directory entries of the root directory.
use crate::encoding::{le16, lemma_read_le16, lemma_splice_concat, put_bytes, put_u16, read_le16, splice};
use crate::layout::{DIRENT_SIZE, NAMELEN};
use vstd::prelude::*;
use vstd::string::StringSliceAdditionalSpecFns;

verus! {

/// A 16-byte directory entry: an inode number and a name of at most 14 bytes,
/// padded with zero bytes.
#[derive(Clone, Copy)]
pub struct Dirent {
    pub ino: u16,
    pub name: [u8; NAMELEN],
}

/// What a directory entry holds.
pub struct DirentView {
    pub ino: u16,
    pub name: Seq<u8>,
}

impl View for Dirent {
    type V = DirentView;

    open spec fn view(&self) -> DirentView {
        DirentView { ino: self.ino, name: self.name@ }
    }
}

/// How many bytes of a name of `len` bytes a directory entry keeps.
pub open spec fn kept_len(len: nat) -> nat {
    if len < NAMELEN {
        len
    } else {
        NAMELEN as nat
    }
}

/// The 14 name bytes stored for a name: its first 14 bytes, padded with zeros.
pub open spec fn stored_name(bytes: Seq<u8>) -> Seq<u8> {
    Seq::new(NAMELEN as nat, |i: int| if i < bytes.len() { bytes[i] } else { 0u8 })
}

/// Whether a new name `bytes` clashes with the stored name `stored`: their first
/// `min(14, len)` bytes are equal, and either the new name has at least 14 bytes
/// or the stored name ends (with a zero byte) right there.
pub open spec fn collides(stored: Seq<u8>, bytes: Seq<u8>) -> bool {
    let len = kept_len(bytes.len());
    &&& stored.take(len as int) == bytes.take(len as int)
    &&& (len == NAMELEN || stored[len as int] == 0)
}

/// A name clashes with its own stored form.
pub proof fn lemma_stored_name_collides(bytes: Seq<u8>)
    ensures
        collides(stored_name(bytes), bytes),
{
    let len = kept_len(bytes.len());
    assert(stored_name(bytes).take(len as int) =~= bytes.take(len as int));
}

/// The 16 bytes of a directory entry on disk.
pub open spec fn dirent_bytes(d: DirentView) -> Seq<u8> {
    le16(d.ino) + d.name
}

impl Dirent {
    /// An entry for inode `ino` under `name`, truncated to 14 bytes.
    pub fn new(ino: u16, name: &str) -> (d: Dirent)
        ensures
            d@.ino == ino,
            d@.name == stored_name(name.spec_bytes()),
    {
        let mut n: [u8; NAMELEN] = [0u8; NAMELEN];
        let bytes = name.as_bytes();
        let len: usize = if bytes.len() < NAMELEN {
            bytes.len()
        } else {
            NAMELEN
        };
        let mut i: usize = 0;
        while i < len
            invariant
                i <= len,
                len == kept_len(bytes@.len()),
                bytes@ == name.spec_bytes(),
                forall|j: int|
                    0 <= j < NAMELEN ==> #[trigger] n@[j] == (if j < i {
                        bytes@[j]
                    } else {
                        0u8
                    }),
            decreases len - i,
        {
            n[i] = bytes[i];
            i = i + 1;
        }
        let d = Dirent { ino, name: n };
        assert(d.name@ =~= stored_name(name.spec_bytes()));
        d
    }

    /// Writes the entry into `buf` at `off`.
    pub fn write_into(&self, buf: &mut Vec<u8>, off: usize)
        requires
            off + DIRENT_SIZE <= old(buf).len(),
        ensures
            final(buf)@ == splice(old(buf)@, off as int, dirent_bytes(self@)),
            final(buf)@.len() == old(buf)@.len(),
            read_le16(final(buf)@, off as int) == self.ino,
            forall|i: int| 0 <= i < NAMELEN ==> #[trigger] final(buf)@[off + 2 + i] == self.name@[i],
            forall|p: int|
                0 <= p < old(buf)@.len() && !(off <= p < off + DIRENT_SIZE)
                    ==> #[trigger] final(buf)@[p] == old(buf)@[p],
    {
        put_u16(buf, off, self.ino);
        put_bytes(buf, off + 2, self.name.as_slice());
        proof {
            lemma_splice_concat(old(buf)@, off as int, le16(self.ino), self.name@);
            lemma_read_le16(buf@, off as int, self.ino);
        }
    }

    /// Whether `name` clashes with this entry's name (see `collides`).
    pub fn matches_name(&self, name: &str) -> (r: bool)
        ensures
            r == collides(self.name@, name.spec_bytes()),
    {
        let bytes = name.as_bytes();
        let len: usize = if bytes.len() < NAMELEN {
            bytes.len()
        } else {
            NAMELEN
        };
        let ghost stored = self.name@;
        let mut i: usize = 0;
        while i < len
            invariant
                i <= len,
                len == kept_len(bytes@.len()),
                len <= NAMELEN,
                bytes@ == name.spec_bytes(),
                stored == self.name@,
                forall|j: int| 0 <= j < i ==> stored[j] == bytes@[j],
            decreases len - i,
        {
            if self.name[i] != bytes[i] {
                assert(stored.take(len as int)[i as int] != bytes@.take(len as int)[i as int]);
                return false;
            }
            i = i + 1;
        }
        assert(stored.take(len as int) =~= bytes@.take(len as int));
        len == NAMELEN || self.name[len] == 0
    }
}

} // verus!
