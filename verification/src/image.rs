//! The BFS image under construction and its abstract model.
use crate::dirent::{
    collides, dirent_bytes, lemma_stored_name_collides, stored_name, Dirent, DirentView,
};
use crate::encoding::{le32, lemma_splice_concat, push_u32, put_bytes, splice};
use crate::error::BfsError;
use crate::inode::{fresh_inode, Inode};
use crate::layout::{
    ceil_div, div_ceil, BSIZE, DATA_START, DIRENT_SIZE, INODES_PER_BLOCK, INODE_COUNT, INODE_SIZE,
    LAST_INO, MAGIC, ROOT_INO, S_IFDIR, S_IFREG, VDIR, VREG,
};
use vstd::prelude::*;
use vstd::string::StringSliceAdditionalSpecFns;
use vstd::utf8::is_ascii_chars_encode_utf8;

verus! {

/// Figures reported after an image has been written.
pub struct Stats {
    pub total_blocks: u32,
    pub entries: u32,
}

/// A BFS image being built in memory.
pub struct Bfs {
    image: Vec<u8>,
    total_blocks: u32,
    next_data_block: u32,
    next_inode: u32,
    /// Inode slots indexed by `ino - ROOT_INO`. `None` means "never used".
    inodes: Vec<Option<Inode>>,
    entries: Vec<Dirent>,
    now: u32,
}

/// The abstract state of an image being built.
pub struct BfsModel {
    /// The bytes of the image.
    pub image: Seq<u8>,
    /// Number of 512-byte blocks in the image.
    pub total_blocks: nat,
    /// First block of the data area not yet given to a file.
    pub next_data_block: nat,
    /// Inode number the next file gets.
    pub next_inode: nat,
    /// Inode slots indexed by `ino - ROOT_INO`.
    pub inodes: Seq<Option<Inode>>,
    /// Entries of the root directory, in order.
    pub entries: Seq<DirentView>,
    /// Time stamp given to every inode.
    pub now: u32,
}

impl View for Bfs {
    type V = BfsModel;

    closed spec fn view(&self) -> BfsModel {
        BfsModel {
            image: self.image@,
            total_blocks: self.total_blocks as nat,
            next_data_block: self.next_data_block as nat,
            next_inode: self.next_inode as nat,
            inodes: self.inodes@,
            entries: self.entries@.map_values(|d: Dirent| d@),
            now: self.now,
        }
    }
}

/// Size in bytes of an image of `size_mb` megabytes.
pub open spec fn image_len(size_mb: nat) -> nat {
    size_mb * 1024 * 1024
}

/// Whether an image of `size_mb` megabytes can be made, and if not, why.
pub open spec fn new_outcome(size_mb: nat) -> Result<(), BfsError> {
    if image_len(size_mb) > u32::MAX {
        Err(BfsError::ImageTooLarge)
    } else if image_len(size_mb) / (BSIZE as nat) <= DATA_START + 1 {
        Err(BfsError::FilesystemTooSmall)
    } else {
        Ok(())
    }
}

/// Whether an inode has data blocks: an empty file records `u32::MAX` as the
/// offset of its last byte.
pub open spec fn has_blocks(f: Inode) -> bool {
    f.eoffset != u32::MAX
}

/// The root directory's inode before its entries are written.
pub open spec fn root_inode(now: u32) -> Inode {
    let f = fresh_inode(ROOT_INO, VDIR, S_IFDIR | 0o755, now);
    Inode { nlink: 2, ..f }
}

/// The bytes of the name ".".
pub open spec fn dot_name() -> Seq<u8> {
    seq![46u8]
}

/// The bytes of the name "..".
pub open spec fn dot_dot_name() -> Seq<u8> {
    seq![46u8, 46u8]
}

/// The bytes of a sequence of directory entries, one after the other.
pub open spec fn dirents_bytes(es: Seq<DirentView>) -> Seq<u8>
    decreases es.len(),
{
    if es.len() == 0 {
        Seq::empty()
    } else {
        dirents_bytes(es.drop_last()) + dirent_bytes(es.last())
    }
}

/// Byte offset of the record of inode slot `slot` (inode `slot + ROOT_INO`):
/// the table starts right after the superblock block.
pub open spec fn inode_offset(slot: int) -> int {
    BSIZE + slot * INODE_SIZE
}

/// `img` after writing the records of the used slots among the first `n`.
pub open spec fn inode_table(img: Seq<u8>, inodes: Seq<Option<Inode>>, n: nat) -> Seq<u8>
    decreases n,
{
    if n == 0 {
        img
    } else {
        let prev = inode_table(img, inodes, (n - 1) as nat);
        match inodes[n - 1] {
            Some(i) => i.written(prev, inode_offset(n - 1)),
            None => prev,
        }
    }
}

/// The 40 bytes of the superblock of an image of `total_blocks` blocks.
pub open spec fn superblock_bytes(total_blocks: nat) -> Seq<u8> {
    le32(MAGIC) + le32((DATA_START * BSIZE) as u32) + le32((total_blocks * BSIZE - 1) as u32)
        + le32(u32::MAX) + le32(u32::MAX) + le32(u32::MAX) + le32(u32::MAX) + seq![
        98u8,
        102u8,
        115u8,
        0u8,
        0u8,
        0u8,
    ] + seq![98u8, 97u8, 115u8, 105u8, 99u8, 0u8]
}

impl BfsModel {
    /// A fresh image of `size_mb` megabytes: all zero, with the root directory
    /// holding "." and "..".
    pub open spec fn initial(size_mb: nat, now: u32) -> BfsModel {
        BfsModel {
            image: Seq::new(image_len(size_mb), |i: int| 0u8),
            total_blocks: image_len(size_mb) / (BSIZE as nat),
            next_data_block: DATA_START as nat,
            next_inode: (ROOT_INO + 1) as nat,
            inodes: Seq::new(
                INODE_COUNT as nat,
                |i: int|
                    if i == 0 {
                        Some(root_inode(now))
                    } else {
                        None
                    },
            ),
            entries: seq![
                DirentView { ino: ROOT_INO as u16, name: stored_name(dot_name()) },
                DirentView { ino: ROOT_INO as u16, name: stored_name(dot_dot_name()) },
            ],
            now,
        }
    }

    /// Whether the placement of file inode `f` is consistent: an empty file has
    /// no blocks; any other lies in the data area below `next_data_block`.
    pub open spec fn extent_ok(self, f: Inode) -> bool {
        ||| (f.sblock == 0 && f.eblock == 0 && f.eoffset == u32::MAX)
        ||| {
            &&& DATA_START <= f.sblock <= f.eblock < self.next_data_block
            &&& f.sblock * BSIZE <= f.eoffset < (f.eblock + 1) * BSIZE
        }
    }

    /// The invariant of an image being built.
    pub open spec fn wf(self) -> bool {
        &&& self.image.len() == self.total_blocks * BSIZE
        &&& self.image.len() <= u32::MAX
        &&& DATA_START + 1 < self.total_blocks
        &&& DATA_START <= self.next_data_block <= self.total_blocks
        &&& ROOT_INO + 1 <= self.next_inode <= LAST_INO + 1
        &&& self.inodes.len() == INODE_COUNT
        &&& 2 <= self.entries.len()
        &&& self.entries.len() + 1 <= self.next_inode
        &&& forall|i: int|
            0 <= i < INODE_COUNT && #[trigger] self.inodes[i] is Some ==> i + ROOT_INO
                < self.next_inode
        &&& forall|i: int|
            0 <= i < INODE_COUNT && #[trigger] self.inodes[i] is Some ==> self.inodes[i]->0.ino
                == i + ROOT_INO
        &&& forall|i: int|
            1 <= i < INODE_COUNT && #[trigger] self.inodes[i] is Some ==> self.extent_ok(
                self.inodes[i]->0,
            )
        &&& forall|k: int| 0 <= k < self.entries.len() ==> #[trigger] self.entries[k].name.len() == 14
        &&& forall|k: int|
            2 <= k < self.entries.len() ==> ROOT_INO < #[trigger] self.entries[k].ino
                < self.next_inode && self.inodes[self.entries[k].ino - ROOT_INO] is Some
        &&& forall|k1: int, k2: int|
            2 <= k1 < k2 < self.entries.len() ==> #[trigger] self.entries[k1].ino
                < #[trigger] self.entries[k2].ino
        &&& forall|k1: int, k2: int|
            0 <= k1 < k2 < self.entries.len() ==> #[trigger] self.entries[k1].name
                != #[trigger] self.entries[k2].name
        &&& forall|i: int, j: int|
            1 <= i < j < INODE_COUNT && #[trigger] self.inodes[i] is Some && #[trigger] self.inodes[j] is Some
                && has_blocks(self.inodes[i]->0) && has_blocks(self.inodes[j]->0)
                ==> self.inodes[i]->0.eblock < self.inodes[j]->0.sblock
        &&& self.inodes[0] == Some(root_inode(self.now))
        &&& self.entries[0] == (DirentView { ino: ROOT_INO as u16, name: stored_name(dot_name()) })
        &&& self.entries[1] == (DirentView { ino: ROOT_INO as u16, name: stored_name(dot_dot_name()) })
    }

    /// The state after a file was refused for its size or for lack of blocks: the
    /// inode number it was to get is used up, nothing else changes.
    pub open spec fn with_inode_used(self) -> BfsModel {
        BfsModel { next_inode: self.next_inode + 1, ..self }
    }

    /// The state after an attempt to add the file `name` holding `data`: the file
    /// added on success; unchanged where the name clashes or no inode is free;
    /// otherwise the inode number used up.
    pub open spec fn after_add(self, name: Seq<u8>, data: Seq<u8>, st_mode: u32, uid: u32, gid: u32) -> BfsModel {
        match self.add_outcome(name, data.len()) {
            Ok(()) => self.with_file(name, data, st_mode, uid, gid),
            Err(BfsError::DuplicateName) => self,
            Err(BfsError::NoFreeInodes) => self,
            Err(_) => self.with_inode_used(),
        }
    }

    /// Whether the name `name` clashes with none in the directory and an inode is
    /// free, and if not, why.
    pub open spec fn name_outcome(self, name: Seq<u8>) -> Result<(), BfsError> {
        if exists|k: int| 0 <= k < self.entries.len() && collides(#[trigger] self.entries[k].name, name) {
            Err(BfsError::DuplicateName)
        } else if self.next_inode > LAST_INO {
            Err(BfsError::NoFreeInodes)
        } else {
            Ok(())
        }
    }

    /// Whether a file named `name` with `len` bytes can be added, and if not, why.
    pub open spec fn add_outcome(self, name: Seq<u8>, len: nat) -> Result<(), BfsError> {
        if exists|k: int| 0 <= k < self.entries.len() && collides(#[trigger] self.entries[k].name, name) {
            Err(BfsError::DuplicateName)
        } else if self.next_inode > LAST_INO {
            Err(BfsError::NoFreeInodes)
        } else if len > u32::MAX {
            Err(BfsError::FileTooLarge)
        } else if len > 0 && self.next_data_block + ceil_div(len, BSIZE as nat) > self.total_blocks {
            Err(BfsError::NoFreeBlocks)
        } else {
            Ok(())
        }
    }

    /// The inode given to the next file, of `len` bytes: its blocks are the
    /// `ceil(len / 512)` blocks from `next_data_block` on.
    pub open spec fn file_inode(self, len: nat, st_mode: u32, uid: u32, gid: u32) -> Inode {
        let start = self.next_data_block;
        let blocks = ceil_div(len, BSIZE as nat);
        Inode {
            ino: self.next_inode as u16,
            sblock: if len == 0 { 0 } else { start as u32 },
            eblock: if len == 0 { 0 } else { (start + blocks - 1) as u32 },
            eoffset: if len == 0 { u32::MAX } else { (start * BSIZE + len - 1) as u32 },
            vtype: VREG,
            mode: S_IFREG | (st_mode & 0o777),
            uid,
            gid,
            nlink: 1,
            atime: self.now,
            mtime: self.now,
            ctime: self.now,
        }
    }

    /// The state after adding the file `name` holding `data`.
    pub open spec fn with_file(self, name: Seq<u8>, data: Seq<u8>, st_mode: u32, uid: u32, gid: u32) -> BfsModel {
        let len = data.len();
        let start = self.next_data_block;
        BfsModel {
            image: if len == 0 { self.image } else { splice(self.image, start * BSIZE, data) },
            next_data_block: if len == 0 { start } else { start + ceil_div(len, BSIZE as nat) },
            next_inode: self.next_inode + 1,
            inodes: self.inodes.update(
                self.next_inode - ROOT_INO,
                Some(self.file_inode(len, st_mode, uid, gid)),
            ),
            entries: self.entries.push(
                DirentView { ino: self.next_inode as u16, name: stored_name(name) },
            ),
            ..self
        }
    }

    /// Bytes taken by the root directory's entries.
    pub open spec fn root_dir_len(self) -> nat {
        self.entries.len() * (DIRENT_SIZE as nat)
    }

    /// Blocks taken by the root directory.
    pub open spec fn root_dir_blocks(self) -> nat {
        if self.root_dir_len() == 0 {
            0
        } else {
            ceil_div(self.root_dir_len(), BSIZE as nat)
        }
    }

    /// First block of the root directory, placed after all file data.
    pub open spec fn root_dir_start(self) -> nat {
        if self.root_dir_blocks() == 0 {
            0
        } else {
            self.next_data_block
        }
    }

    /// Whether the image can be finished, and if not, why.
    pub open spec fn finish_outcome(self) -> Result<(), BfsError> {
        if self.root_dir_blocks() > 0 && self.next_data_block + self.root_dir_blocks()
            > self.total_blocks {
            Err(BfsError::NoFreeBlocks)
        } else {
            Ok(())
        }
    }

    /// The state after taking `count` blocks from the start of the free data area.
    pub open spec fn reserved(self, count: nat) -> BfsModel {
        BfsModel { next_data_block: self.next_data_block + count, ..self }
    }

    /// The root inode once the root directory has its blocks.
    pub open spec fn finished_root(self) -> Inode {
        let start = self.root_dir_start();
        let len = self.root_dir_len();
        let blocks = self.root_dir_blocks();
        Inode {
            sblock: start as u32,
            eblock: if blocks == 0 { 0 } else { (start + blocks - 1) as u32 },
            eoffset: if len == 0 { u32::MAX } else { (start * BSIZE + len - 1) as u32 },
            ..self.inodes[0]->0
        }
    }

    /// The inode slots once the root directory has its blocks.
    pub open spec fn finished_inodes(self) -> Seq<Option<Inode>> {
        self.inodes.update(0, Some(self.finished_root()))
    }

    /// The finished image: the root directory's entries after the file data,
    /// then the inode table, then the superblock.
    pub open spec fn final_image(self) -> Seq<u8> {
        let with_dir = splice(self.image, self.root_dir_start() * BSIZE, dirents_bytes(self.entries));
        let with_table = inode_table(with_dir, self.finished_inodes(), INODE_COUNT as nat);
        splice(with_table, 0, superblock_bytes(self.total_blocks))
    }
}

/// `ceil(len / 512)` blocks hold `len` bytes, with less than a block to spare.
pub proof fn lemma_ceil_div_bounds(len: nat)
    ensures
        ceil_div(len, BSIZE as nat) * BSIZE >= len,
        len > 0 ==> (ceil_div(len, BSIZE as nat) - 1) * BSIZE < len,
        len <= u32::MAX ==> ceil_div(len, BSIZE as nat) <= 0x80_0000,
{
}

/// Directory entries with 14-byte names take 16 bytes each.
pub proof fn lemma_dirents_bytes_len(es: Seq<DirentView>)
    requires
        forall|j: int| 0 <= j < es.len() ==> #[trigger] es[j].name.len() == 14,
    ensures
        dirents_bytes(es).len() == es.len() * DIRENT_SIZE,
    decreases es.len(),
{
    if es.len() > 0 {
        let init = es.drop_last();
        assert forall|j: int| 0 <= j < init.len() implies #[trigger] init[j].name.len() == 14 by {
            assert(init[j] == es[j]);
        }
        lemma_dirents_bytes_len(init);
    }
}

/// Writing the inode table keeps the image's length.
pub proof fn lemma_inode_table_len(img: Seq<u8>, inodes: Seq<Option<Inode>>, n: nat)
    ensures
        inode_table(img, inodes, n).len() == img.len(),
    decreases n,
{
    if n > 0 {
        lemma_inode_table_len(img, inodes, (n - 1) as nat);
    }
}

/// Adding a file keeps the invariant.
pub proof fn lemma_with_file_wf(
    m: BfsModel,
    name: Seq<u8>,
    data: Seq<u8>,
    st_mode: u32,
    uid: u32,
    gid: u32,
)
    requires
        m.wf(),
        m.add_outcome(name, data.len()) is Ok,
    ensures
        m.with_file(name, data, st_mode, uid, gid).wf(),
{
    lemma_ceil_div_bounds(data.len());
    lemma_stored_name_collides(name);
    let m2 = m.with_file(name, data, st_mode, uid, gid);
    let slot = m.next_inode - ROOT_INO;
    let f = m2.inodes[slot]->0;
    let n = m.entries.len();
    assert(m2.entries[0] == m.entries[0]);
    assert(m2.entries[1] == m.entries[1]);
    assert(has_blocks(f) ==> data.len() > 0);
    assert forall|k1: int, k2: int| 0 <= k1 < k2 < m2.entries.len() implies #[trigger] m2.entries[k1].name
        != #[trigger] m2.entries[k2].name by {
        if k2 == n {
            assert(m2.entries[k1] == m.entries[k1]);
            assert(!collides(m.entries[k1].name, name));
        } else {
            assert(m2.entries[k1] == m.entries[k1]);
            assert(m2.entries[k2] == m.entries[k2]);
        }
    }
    assert forall|k1: int, k2: int| 2 <= k1 < k2 < m2.entries.len() implies #[trigger] m2.entries[k1].ino
        < #[trigger] m2.entries[k2].ino by {
        assert(m2.entries[k1] == m.entries[k1]);
        if k2 < n {
            assert(m2.entries[k2] == m.entries[k2]);
        }
    }
    assert forall|k: int| 2 <= k < m2.entries.len() implies ROOT_INO < #[trigger] m2.entries[k].ino
        < m2.next_inode && m2.inodes[m2.entries[k].ino - ROOT_INO] is Some by {
        if k < n {
            assert(m2.entries[k] == m.entries[k]);
        }
    }
    assert forall|i: int| 1 <= i < INODE_COUNT && #[trigger] m2.inodes[i] is Some implies m2.extent_ok(
        m2.inodes[i]->0,
    ) by {
        if i != slot {
            assert(m.extent_ok(m.inodes[i]->0));
        }
    }
    assert forall|i: int, j: int|
        1 <= i < j < INODE_COUNT && #[trigger] m2.inodes[i] is Some && #[trigger] m2.inodes[j] is Some
            && has_blocks(m2.inodes[i]->0) && has_blocks(m2.inodes[j]->0) implies m2.inodes[i]->0.eblock
        < m2.inodes[j]->0.sblock by {
        if j == slot {
            assert(m.inodes[i] is Some);
            assert(m.extent_ok(m.inodes[i]->0));
        } else {
            assert(m.inodes[j] is Some);
            assert(i != slot);
        }
    }
}

/// Using up an inode number keeps the invariant.
pub proof fn lemma_with_inode_used_wf(m: BfsModel)
    requires
        m.wf(),
        m.next_inode <= LAST_INO,
    ensures
        m.with_inode_used().wf(),
{
    let m2 = m.with_inode_used();
    assert forall|i: int| 1 <= i < INODE_COUNT && #[trigger] m2.inodes[i] is Some implies m2.extent_ok(
        m2.inodes[i]->0,
    ) by {
        assert(m.extent_ok(m.inodes[i]->0));
    }
}

/// Declares `std::time::SystemTime`, a reading of the system clock, to Verus.
#[verifier::external_type_specification]
#[verifier::external_body]
pub struct ExSystemTime(std::time::SystemTime);

/// The current time of the system clock, by `std::time::SystemTime::now()`.
/// Nothing is stated of the result: it depends on when the call is made.
#[verifier::external_body]
fn clock_now() -> (t: std::time::SystemTime) {
    std::time::SystemTime::now()
}

/// The time elapsed from the Unix epoch to `t`, by
/// `SystemTime::duration_since(UNIX_EPOCH)`; `None` where `t` is before the epoch
/// (the error of that call). Nothing is stated of the result: Verus sees neither
/// `t` nor a `Duration` inside.
#[verifier::external_body]
fn elapsed_since_epoch(t: std::time::SystemTime) -> (d: Option<core::time::Duration>) {
    match t.duration_since(std::time::UNIX_EPOCH) {
        Ok(elapsed) => Some(elapsed),
        Err(_) => None,
    }
}

/// The whole seconds of `d`, by `Duration::as_secs`. Nothing is stated of the
/// result: Verus does not see inside a `Duration`.
#[verifier::external_body]
fn whole_seconds(d: core::time::Duration) -> (secs: u64) {
    d.as_secs()
}

/// The time stamp kept for a clock reading: the seconds since the epoch modulo
/// 2^32, or 0 where the clock stands before the epoch.
fn stamp(secs: Option<u64>) -> (now: u32)
    ensures
        now == match secs {
            Some(s) => s as u32,
            None => 0,
        },
{
    match secs {
        Some(s) => s as u32,
        None => 0,
    }
}

impl Bfs {
    /// An empty image of `size_mb` megabytes whose inodes carry the time stamp `now`.
    pub fn new_at(size_mb: u32, now: u32) -> (r: Result<Bfs, BfsError>)
        ensures
            match r {
                Ok(b) => {
                    &&& new_outcome(size_mb as nat) is Ok
                    &&& b@ == BfsModel::initial(size_mb as nat, now)
                    &&& b@.wf()
                },
                Err(e) => new_outcome(size_mb as nat) == Err::<(), BfsError>(e),
            },
    {
        let image_size: u64 = (size_mb as u64) * 1024 * 1024;
        if image_size > u32::MAX as u64 {
            return Err(BfsError::ImageTooLarge);
        }
        let total_blocks: u32 = (image_size / (BSIZE as u64)) as u32;

        let inode_count: u32 = LAST_INO - ROOT_INO + 1;
        let inode_blocks: u32 = div_ceil(inode_count, INODES_PER_BLOCK);
        let data_start: u32 = 1 + inode_blocks;
        assert(data_start == DATA_START);

        if total_blocks <= data_start + 1 {
            return Err(BfsError::FilesystemTooSmall);
        }

        let inode_slots: usize = inode_count as usize;
        let mut inodes: Vec<Option<Inode>> = Vec::new();
        let mut i: usize = 0;
        while i < inode_slots
            invariant
                i <= inode_slots,
                inode_slots == INODE_COUNT,
                inodes@.len() == i,
                forall|j: int| 0 <= j < i ==> #[trigger] inodes@[j] is None,
            decreases inode_slots - i,
        {
            inodes.push(None);
            i = i + 1;
        }
        let image: Vec<u8> = vec![0u8; image_size as usize];

        let mut root = Inode::new(ROOT_INO, VDIR, S_IFDIR | 0o755, now);
        root.nlink = 2;
        inodes[0] = Some(root);

        let mut entries: Vec<Dirent> = Vec::new();
        entries.push(Dirent::new(ROOT_INO as u16, "."));
        entries.push(Dirent::new(ROOT_INO as u16, ".."));
        proof {
            reveal_strlit(".");
            reveal_strlit("..");
            is_ascii_chars_encode_utf8(".".view());
            is_ascii_chars_encode_utf8("..".view());
            assert(".".spec_bytes() =~= dot_name());
            assert("..".spec_bytes() =~= dot_dot_name());
        }

        let bfs = Bfs {
            image,
            total_blocks,
            next_data_block: data_start,
            next_inode: ROOT_INO + 1,
            inodes,
            entries,
            now,
        };
        proof {
            let m = BfsModel::initial(size_mb as nat, now);
            assert(bfs@.image =~= m.image);
            assert(bfs@.inodes =~= m.inodes);
            assert(bfs@.entries =~= m.entries);
            assert(stored_name(dot_name())[1] != stored_name(dot_dot_name())[1]);
        }
        Ok(bfs)
    }

    /// An empty image of `size_mb` megabytes, its inodes stamped with the current
    /// time (seconds since the Unix epoch, modulo 2^32; 0 where the clock stands
    /// before the epoch).
    pub fn new(size_mb: u32) -> (r: Result<Bfs, BfsError>)
        ensures
            match r {
                Ok(b) => {
                    &&& new_outcome(size_mb as nat) is Ok
                    &&& b@ == BfsModel::initial(size_mb as nat, b@.now)
                    &&& b@.wf()
                },
                Err(e) => new_outcome(size_mb as nat) == Err::<(), BfsError>(e),
            },
    {
        let secs: Option<u64> = match elapsed_since_epoch(clock_now()) {
            Some(elapsed) => Some(whole_seconds(elapsed)),
            None => None,
        };
        let now: u32 = stamp(secs);
        Bfs::new_at(size_mb, now)
    }

    /// An empty image of `size_mb` megabytes, refusing a size of zero.
    pub fn create(size_mb: u32) -> (r: Result<Bfs, BfsError>)
        ensures
            size_mb == 0 ==> r == Err::<Bfs, BfsError>(BfsError::SizeNotPositive),
            size_mb != 0 ==> match r {
                Ok(b) => {
                    &&& new_outcome(size_mb as nat) is Ok
                    &&& b@ == BfsModel::initial(size_mb as nat, b@.now)
                    &&& b@.wf()
                },
                Err(e) => new_outcome(size_mb as nat) == Err::<(), BfsError>(e),
            },
    {
        if size_mb == 0 {
            return Err(BfsError::SizeNotPositive);
        }
        Bfs::new(size_mb)
    }

    /// Takes `count` blocks from the start of the free data area and returns the
    /// first of them (0 when `count` is 0, which takes nothing).
    fn reserve_blocks(&mut self, count: u32) -> (r: Result<u32, BfsError>)
        requires
            old(self).next_data_block <= old(self).total_blocks,
            old(self).next_data_block + count <= u32::MAX,
        ensures
            count == 0 ==> r == Ok::<u32, BfsError>(0) && *final(self) == *old(self),
            count > 0 && old(self).next_data_block + count > old(self).total_blocks ==> r
                == Err::<u32, BfsError>(BfsError::NoFreeBlocks) && *final(self) == *old(self),
            count > 0 && old(self).next_data_block + count <= old(self).total_blocks ==> {
                &&& r == Ok::<u32, BfsError>(old(self).next_data_block)
                &&& final(self)@ == old(self)@.reserved(count as nat)
                &&& final(self).next_data_block == old(self).next_data_block + count
                &&& final(self).image == old(self).image
                &&& final(self).total_blocks == old(self).total_blocks
                &&& final(self).next_inode == old(self).next_inode
                &&& final(self).inodes == old(self).inodes
                &&& final(self).entries == old(self).entries
                &&& final(self).now == old(self).now
            },
    {
        if count == 0 {
            return Ok(0);
        }
        let start = self.next_data_block;
        if start + count > self.total_blocks {
            return Err(BfsError::NoFreeBlocks);
        }
        self.next_data_block = self.next_data_block + count;
        Ok(start)
    }

    /// Whether a file named `name` may be added as far as its name and the count
    /// of inodes go: the checks that `add_file` makes before it looks at the data.
    pub fn check_name(&self, name: &str) -> (r: Result<(), BfsError>)
        requires
            self@.wf(),
        ensures
            r == self@.name_outcome(name.spec_bytes()),
    {
        let ghost m = self@;
        let ghost bytes = name.spec_bytes();
        let mut k: usize = 0;
        while k < self.entries.len()
            invariant
                self@ == m,
                m.wf(),
                k <= self.entries@.len(),
                bytes == name.spec_bytes(),
                forall|j: int| 0 <= j < k ==> !collides(#[trigger] m.entries[j].name, bytes),
            decreases self.entries@.len() - k,
        {
            if self.entries[k].matches_name(name) {
                assert(collides(m.entries[k as int].name, bytes));
                return Err(BfsError::DuplicateName);
            }
            k = k + 1;
        }
        assert(!exists|j: int| 0 <= j < m.entries.len() && collides(#[trigger] m.entries[j].name, bytes));

        if self.next_inode > LAST_INO {
            return Err(BfsError::NoFreeInodes);
        }
        Ok(())
    }

    /// Adds a file named `name` holding `data` to the root directory.
    ///
    /// `st_mode`, `uid` and `gid` are the file's attributes on the host; only the
    /// permission bits of `st_mode` are kept. The data takes the next
    /// `ceil(len / 512)` blocks of the data area. A file refused for a clashing
    /// name or for lack of inodes changes nothing; one refused for its size or for
    /// lack of blocks uses up the inode number it was to get.
    pub fn add_file(&mut self, name: &str, data: &[u8], st_mode: u32, uid: u32, gid: u32) -> (r:
        Result<(), BfsError>)
        requires
            old(self)@.wf(),
        ensures
            r == old(self)@.add_outcome(name.spec_bytes(), data@.len()),
            final(self)@ == old(self)@.after_add(name.spec_bytes(), data@, st_mode, uid, gid),
            final(self)@.wf(),
    {
        let ghost m = self@;
        let ghost bytes = name.spec_bytes();
        match self.check_name(name) {
            Ok(()) => {},
            Err(e) => {
                return Err(e);
            },
        }
        let ino = self.next_inode;
        self.next_inode = ino + 1;
        proof {
            lemma_with_inode_used_wf(m);
            assert(self@ == m.with_inode_used());
        }

        if data.len() > u32::MAX as usize {
            return Err(BfsError::FileTooLarge);
        }
        let size: u32 = data.len() as u32;

        let mut inode = Inode::new(ino, VREG, S_IFREG | (st_mode & 0o777), self.now);
        inode.uid = uid;
        inode.gid = gid;

        if size != 0 {
            let block_count = div_ceil(size, BSIZE as u32);
            proof {
                lemma_ceil_div_bounds(size as nat);
            }
            let start = match self.reserve_blocks(block_count) {
                Ok(start) => start,
                Err(e) => {
                    return Err(e);
                },
            };
            inode.sblock = start;
            inode.eblock = start + block_count - 1;
            inode.eoffset = start * (BSIZE as u32) + size - 1;
            let off: usize = (start as usize) * BSIZE;
            put_bytes(&mut self.image, off, data);
        }

        self.inodes[(ino - ROOT_INO) as usize] = Some(inode);
        let d = Dirent::new(ino as u16, name);
        self.entries.push(d);
        proof {
            let m2 = m.with_file(bytes, data@, st_mode, uid, gid);
            lemma_with_file_wf(m, bytes, data@, st_mode, uid, gid);
            assert(self@.entries =~= m2.entries);
            assert(self@.inodes =~= m2.inodes);
            assert(self@.image =~= m2.image);
            assert(self@ == m2);
        }
        Ok(())
    }

    /// Places the root directory's entries in the blocks after the file data and
    /// records them in the root inode.
    fn write_root_dir(&mut self) -> (r: Result<(), BfsError>)
        requires
            old(self)@.wf(),
        ensures
            r == old(self)@.finish_outcome(),
            r is Err ==> final(self)@ == old(self)@,
            r is Ok ==> final(self)@.image == splice(
                old(self)@.image,
                old(self)@.root_dir_start() * BSIZE,
                dirents_bytes(old(self)@.entries),
            ),
            r is Ok ==> final(self)@.inodes == old(self)@.finished_inodes(),
            r is Ok ==> final(self)@ == (BfsModel {
                image: splice(
                    old(self)@.image,
                    old(self)@.root_dir_start() * BSIZE,
                    dirents_bytes(old(self)@.entries),
                ),
                inodes: old(self)@.finished_inodes(),
                next_data_block: old(self)@.next_data_block + old(self)@.root_dir_blocks(),
                ..old(self)@
            }),
            final(self).total_blocks == old(self).total_blocks,
            final(self).entries == old(self).entries,
            final(self)@.image.len() == old(self)@.image.len(),
    {
        let ghost m = self@;
        let entry_count: u32 = self.entries.len() as u32;
        let size: u32 = entry_count * (DIRENT_SIZE as u32);
        proof {
            lemma_ceil_div_bounds(size as nat);
        }
        let block_count: u32 = if size == 0 {
            0
        } else {
            div_ceil(size, BSIZE as u32)
        };
        let start = match self.reserve_blocks(block_count) {
            Ok(start) => start,
            Err(e) => {
                return Err(e);
            },
        };
        assert(start == m.root_dir_start());

        let slot: Option<Inode> = self.inodes[0];
        let mut root = slot.unwrap();
        root.sblock = start;
        root.eblock = if block_count == 0 {
            0
        } else {
            start + block_count - 1
        };
        root.eoffset = if size == 0 {
            u32::MAX
        } else {
            start * (BSIZE as u32) + size - 1
        };
        self.inodes[0] = Some(root);
        assert(self@.inodes =~= m.finished_inodes());

        let ghost img0 = self.image@;
        let ghost base = start * BSIZE;
        let n = self.entries.len();
        proof {
            lemma_dirents_bytes_len(m.entries);
        }
        let mut buf_off: usize = (start as usize) * BSIZE;
        let mut k: usize = 0;
        while k < n
            invariant
                k <= n,
                n == m.entries.len(),
                self@.entries == m.entries,
                self.entries == old(self).entries,
                self@.inodes == m.finished_inodes(),
                self.total_blocks == m.total_blocks,
                self.next_data_block == m.next_data_block + m.root_dir_blocks(),
                self.next_inode == m.next_inode,
                self.now == m.now,
                buf_off == base + k * DIRENT_SIZE,
                base + n * DIRENT_SIZE <= img0.len(),
                self.image@.len() == img0.len(),
                img0.len() <= u32::MAX,
                self.image@ == splice(img0, base, dirents_bytes(m.entries.take(k as int))),
                forall|j: int| 0 <= j < m.entries.len() ==> #[trigger] m.entries[j].name.len() == 14,
            decreases n - k,
        {
            let d = self.entries[k];
            proof {
                lemma_dirents_bytes_len(m.entries.take(k as int));
                lemma_splice_concat(
                    img0,
                    base,
                    dirents_bytes(m.entries.take(k as int)),
                    dirent_bytes(d@),
                );
                let t = m.entries.take(k as int + 1);
                assert(t.drop_last() =~= m.entries.take(k as int));
                assert(t.last() == d@);
            }
            d.write_into(&mut self.image, buf_off);
            buf_off = buf_off + DIRENT_SIZE;
            k = k + 1;
        }
        assert(m.entries.take(n as int) =~= m.entries);
        Ok(())
    }

    /// Writes the records of all used inode slots into the inode table.
    fn write_inode_table(&mut self)
        requires
            old(self).image@.len() >= inode_offset(INODE_COUNT as int),
            old(self).inodes@.len() == INODE_COUNT,
        ensures
            final(self).image@ == inode_table(
                old(self).image@,
                old(self).inodes@,
                INODE_COUNT as nat,
            ),
            final(self)@ == (BfsModel {
                image: inode_table(old(self).image@, old(self).inodes@, INODE_COUNT as nat),
                ..old(self)@
            }),
            final(self).inodes == old(self).inodes,
            final(self).total_blocks == old(self).total_blocks,
            final(self).entries == old(self).entries,
    {
        let ghost img0 = self.image@;
        let n = self.inodes.len();
        let mut idx: usize = 0;
        while idx < n
            invariant
                idx <= n,
                n == INODE_COUNT,
                self.inodes == old(self).inodes,
                self.inodes@.len() == n,
                self.entries == old(self).entries,
                self.total_blocks == old(self).total_blocks,
                self.next_data_block == old(self).next_data_block,
                self.next_inode == old(self).next_inode,
                self.now == old(self).now,
                self.image@.len() == img0.len(),
                img0.len() >= inode_offset(INODE_COUNT as int),
                self.image@ == inode_table(img0, self.inodes@, idx as nat),
            decreases n - idx,
        {
            let slot: Option<Inode> = self.inodes[idx];
            if let Some(inode) = slot {
                let off: usize = idx * INODE_SIZE + BSIZE;
                inode.write_into(&mut self.image, off);
            }
            idx = idx + 1;
        }
    }

    /// Writes the superblock into the first 40 bytes.
    fn write_superblock(&mut self)
        requires
            old(self).image@.len() >= 40,
            1 <= old(self).total_blocks,
            old(self).total_blocks * BSIZE <= u32::MAX,
        ensures
            final(self).image@ == splice(
                old(self).image@,
                0,
                superblock_bytes(old(self).total_blocks as nat),
            ),
            final(self)@ == (BfsModel {
                image: splice(old(self)@.image, 0, superblock_bytes(old(self).total_blocks as nat)),
                ..old(self)@
            }),
            final(self).inodes == old(self).inodes,
            final(self).total_blocks == old(self).total_blocks,
            final(self).entries == old(self).entries,
    {
        let inode_blocks: u32 = div_ceil(LAST_INO - ROOT_INO + 1, INODES_PER_BLOCK);
        assert(inode_blocks == 63);
        let data_start: u32 = 1 + inode_blocks;
        let data_start_byte: u32 = data_start * 512;
        let s_end: u32 = self.total_blocks * (BSIZE as u32) - 1;

        let mut sb: Vec<u8> = Vec::new();
        push_u32(&mut sb, MAGIC);
        push_u32(&mut sb, data_start_byte);
        push_u32(&mut sb, s_end);
        push_u32(&mut sb, u32::MAX);  // s_from
        push_u32(&mut sb, u32::MAX);  // s_to
        push_u32(&mut sb, u32::MAX);  // s_bfrom: -1 as a 32-bit two's complement
        push_u32(&mut sb, u32::MAX);  // s_bto: -1 as a 32-bit two's complement
        sb.push(98u8);  // s_fsname: "bfs"
        sb.push(102u8);
        sb.push(115u8);
        sb.push(0u8);
        sb.push(0u8);
        sb.push(0u8);
        sb.push(98u8);  // s_volume: "basic"
        sb.push(97u8);
        sb.push(115u8);
        sb.push(105u8);
        sb.push(99u8);
        sb.push(0u8);
        assert(sb@ =~= superblock_bytes(self.total_blocks as nat));
        put_bytes(&mut self.image, 0, sb.as_slice());
    }

    /// Finishes the image (root directory, inode table, superblock) and hands its
    /// bytes over in `out`, which is replaced.
    pub fn write_to(self, out: &mut Vec<u8>) -> (r: Result<Stats, BfsError>)
        requires
            self@.wf(),
        ensures
            match r {
                Ok(stats) => {
                    &&& self@.finish_outcome() is Ok
                    &&& final(out)@ == self@.final_image()
                    &&& stats.total_blocks == self@.total_blocks
                    &&& stats.entries == self@.entries.len()
                },
                Err(e) => {
                    &&& self@.finish_outcome() == Err::<(), BfsError>(e)
                    &&& final(out)@ == old(out)@
                },
            },
    {
        let ghost m = self@;
        let mut bfs = self;
        match bfs.write_root_dir() {
            Ok(()) => {},
            Err(e) => {
                return Err(e);
            },
        }
        proof {
            lemma_inode_table_len(bfs.image@, bfs.inodes@, INODE_COUNT as nat);
        }
        bfs.write_inode_table();
        bfs.write_superblock();
        let stats = Stats { total_blocks: bfs.total_blocks, entries: bfs.entries.len() as u32 };
        *out = bfs.image;
        Ok(stats)
    }
}

} // verus!
