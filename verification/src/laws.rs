//! Properties of the image that hold across operations.
use crate::dirent::{collides, dirent_bytes, kept_len, stored_name, DirentView};
use crate::encoding::{le32, lemma_read_le16, lemma_read_le32_at, read_le16, read_le32, splice};
use crate::error::BfsError;
use crate::image::{
    dirents_bytes, has_blocks, inode_offset, inode_table, lemma_ceil_div_bounds, lemma_dirents_bytes_len,
    lemma_inode_table_len, new_outcome, superblock_bytes, BfsModel,
};
use crate::inode::Inode;
use crate::layout::{ceil_div, BSIZE, DATA_START, INODE_COUNT, INODE_SIZE, MAGIC, NAMELEN, S_IFREG};
use vstd::prelude::*;

verus! {

/// Bytes outside the inode table are not touched by writing it.
pub proof fn lemma_inode_table_frame(img: Seq<u8>, inodes: Seq<Option<Inode>>, n: nat, p: int)
    requires
        0 <= p < img.len(),
        p < inode_offset(0) || p >= inode_offset(n as int),
    ensures
        inode_table(img, inodes, n)[p] == img[p],
    decreases n,
{
    if n > 0 {
        lemma_inode_table_frame(img, inodes, (n - 1) as nat, p);
        lemma_inode_table_len(img, inodes, (n - 1) as nat);
    }
}

/// The record of slot `j` in the written table is that inode's record written
/// over the original bytes.
pub proof fn lemma_inode_table_slot(
    img: Seq<u8>,
    inodes: Seq<Option<Inode>>,
    n: nat,
    j: int,
    p: int,
)
    requires
        0 <= j < n,
        n <= inodes.len(),
        inodes[j] is Some,
        inode_offset(j) <= p < inode_offset(j) + INODE_SIZE,
        p < img.len(),
    ensures
        inode_table(img, inodes, n)[p] == inodes[j]->0.written(img, inode_offset(j))[p],
    decreases n,
{
    lemma_inode_table_len(img, inodes, (n - 1) as nat);
    if j == n - 1 {
        lemma_inode_table_frame(img, inodes, (n - 1) as nat, p);
    } else {
        lemma_inode_table_slot(img, inodes, (n - 1) as nat, j, p);
    }
}

/// Entry `k` of a run of directory entries with 14-byte names sits at byte `16 * k`.
pub proof fn lemma_dirents_bytes_at(es: Seq<DirentView>, k: int, i: int)
    requires
        forall|j: int| 0 <= j < es.len() ==> #[trigger] es[j].name.len() == 14,
        0 <= k < es.len(),
        0 <= i < 16,
    ensures
        dirents_bytes(es)[16 * k + i] == dirent_bytes(es[k])[i],
    decreases es.len(),
{
    let init = es.drop_last();
    assert forall|j: int| 0 <= j < init.len() implies #[trigger] init[j].name.len() == 14 by {
        assert(init[j] == es[j]);
    }
    lemma_dirents_bytes_len(init);
    if k < es.len() - 1 {
        lemma_dirents_bytes_at(init, k, i);
        assert(init[k] == es[k]);
    }
}

/// The record of an inode, written over any bytes, reads back as that inode.
pub proof fn lemma_record_reads_back(f: Inode, s: Seq<u8>, off: int)
    requires
        0 <= off,
        off + INODE_SIZE <= s.len(),
    ensures
        ({
            let w = f.written(s, off);
            &&& read_le16(w, off) == f.ino
            &&& read_le32(w, off + 4) == f.sblock
            &&& read_le32(w, off + 8) == f.eblock
            &&& read_le32(w, off + 12) == f.eoffset
            &&& read_le32(w, off + 16) == f.vtype
            &&& read_le32(w, off + 20) == f.mode
            &&& read_le32(w, off + 24) == f.uid
            &&& read_le32(w, off + 28) == f.gid
            &&& read_le32(w, off + 32) == f.nlink
            &&& read_le32(w, off + 36) == f.atime
            &&& read_le32(w, off + 40) == f.mtime
            &&& read_le32(w, off + 44) == f.ctime
        }),
{
    let w = f.written(s, off);
    let fb = f.field_bytes();
    assert(fb.len() == 44);
    lemma_read_le16(w, off, f.ino);
    assert(w.subrange(off + 4, off + 8) =~= le32(f.sblock));
    lemma_read_le32_at(w, off + 4, f.sblock);
    assert(w.subrange(off + 8, off + 12) =~= le32(f.eblock));
    lemma_read_le32_at(w, off + 8, f.eblock);
    assert(w.subrange(off + 12, off + 16) =~= le32(f.eoffset));
    lemma_read_le32_at(w, off + 12, f.eoffset);
    assert(w.subrange(off + 16, off + 20) =~= le32(f.vtype));
    lemma_read_le32_at(w, off + 16, f.vtype);
    assert(w.subrange(off + 20, off + 24) =~= le32(f.mode));
    lemma_read_le32_at(w, off + 20, f.mode);
    assert(w.subrange(off + 24, off + 28) =~= le32(f.uid));
    lemma_read_le32_at(w, off + 24, f.uid);
    assert(w.subrange(off + 28, off + 32) =~= le32(f.gid));
    lemma_read_le32_at(w, off + 28, f.gid);
    assert(w.subrange(off + 32, off + 36) =~= le32(f.nlink));
    lemma_read_le32_at(w, off + 32, f.nlink);
    assert(w.subrange(off + 36, off + 40) =~= le32(f.atime));
    lemma_read_le32_at(w, off + 36, f.atime);
    assert(w.subrange(off + 40, off + 44) =~= le32(f.mtime));
    lemma_read_le32_at(w, off + 40, f.mtime);
    assert(w.subrange(off + 44, off + 48) =~= le32(f.ctime));
    lemma_read_le32_at(w, off + 44, f.ctime);
}

/// The finished image is exactly as long as the image being built: `total_blocks`
/// blocks of 512 bytes.
pub proof fn law_image_length(m: BfsModel)
    requires
        m.wf(),
    ensures
        m.final_image().len() == m.total_blocks * BSIZE,
{
    let with_dir = splice(m.image, m.root_dir_start() * BSIZE, dirents_bytes(m.entries));
    lemma_inode_table_len(with_dir, m.finished_inodes(), INODE_COUNT as nat);
}

/// The superblock of a finished image holds the magic number, the byte offset of
/// the data area (block 64), the offset of the image's last byte, the unused
/// fields set to all ones, and the names "bfs" and "basic".
pub proof fn law_superblock(m: BfsModel)
    requires
        m.wf(),
    ensures
        ({
            let img = m.final_image();
            &&& read_le32(img, 0) == MAGIC
            &&& read_le32(img, 4) == DATA_START * BSIZE
            &&& read_le32(img, 8) == img.len() - 1
            &&& read_le32(img, 12) == u32::MAX
            &&& read_le32(img, 16) == u32::MAX
            &&& read_le32(img, 20) == u32::MAX
            &&& read_le32(img, 24) == u32::MAX
            &&& img.subrange(28, 34) == seq![98u8, 102u8, 115u8, 0u8, 0u8, 0u8]
            &&& img.subrange(34, 40) == seq![98u8, 97u8, 115u8, 105u8, 99u8, 0u8]
        }),
{
    law_image_length(m);
    let img = m.final_image();
    let sb = superblock_bytes(m.total_blocks);
    assert(sb.len() == 40);
    assert forall|i: int| 0 <= i < 40 implies img[i] == sb[i] by {}
    let end = (m.total_blocks * BSIZE - 1) as u32;
    assert(img.subrange(0, 4) =~= le32(MAGIC));
    lemma_read_le32_at(img, 0, MAGIC);
    assert(img.subrange(4, 8) =~= le32((DATA_START * BSIZE) as u32));
    lemma_read_le32_at(img, 4, (DATA_START * BSIZE) as u32);
    assert(img.subrange(8, 12) =~= le32(end));
    lemma_read_le32_at(img, 8, end);
    assert(img.subrange(12, 16) =~= le32(u32::MAX));
    lemma_read_le32_at(img, 12, u32::MAX);
    assert(img.subrange(16, 20) =~= le32(u32::MAX));
    lemma_read_le32_at(img, 16, u32::MAX);
    assert(img.subrange(20, 24) =~= le32(u32::MAX));
    lemma_read_le32_at(img, 20, u32::MAX);
    assert(img.subrange(24, 28) =~= le32(u32::MAX));
    lemma_read_le32_at(img, 24, u32::MAX);
    assert(img.subrange(28, 34) =~= seq![98u8, 102u8, 115u8, 0u8, 0u8, 0u8]);
    assert(img.subrange(34, 40) =~= seq![98u8, 97u8, 115u8, 105u8, 99u8, 0u8]);
}

/// Slots without an inode are not touched by writing the table.
pub proof fn lemma_inode_table_unused(
    img: Seq<u8>,
    inodes: Seq<Option<Inode>>,
    n: nat,
    j: int,
    p: int,
)
    requires
        0 <= j < inodes.len(),
        n <= inodes.len(),
        inodes[j] is None,
        inode_offset(j) <= p < inode_offset(j) + INODE_SIZE,
        p < img.len(),
    ensures
        inode_table(img, inodes, n)[p] == img[p],
    decreases n,
{
    if n > 0 {
        lemma_inode_table_len(img, inodes, (n - 1) as nat);
        lemma_inode_table_unused(img, inodes, (n - 1) as nat, j, p);
    }
}

/// The image with the root directory's entries in place, before the inode table
/// and the superblock are written.
pub open spec fn with_root_dir(m: BfsModel) -> Seq<u8> {
    splice(m.image, m.root_dir_start() * BSIZE, dirents_bytes(m.entries))
}

/// Facts on the placement of the root directory in a consistent image.
pub proof fn lemma_root_dir_place(m: BfsModel)
    requires
        m.wf(),
    ensures
        m.root_dir_len() == 16 * m.entries.len(),
        m.root_dir_len() >= 32,
        m.root_dir_blocks() > 0,
        m.root_dir_start() == m.next_data_block,
        m.root_dir_blocks() * BSIZE >= m.root_dir_len(),
        (m.root_dir_blocks() - 1) * BSIZE < m.root_dir_len(),
        dirents_bytes(m.entries).len() == m.root_dir_len(),
        with_root_dir(m).len() == m.image.len(),
        m.final_image() == splice(
            inode_table(with_root_dir(m), m.finished_inodes(), INODE_COUNT as nat),
            0,
            superblock_bytes(m.total_blocks),
        ),
{
    lemma_ceil_div_bounds(m.root_dir_len());
    lemma_dirents_bytes_len(m.entries);
}

/// Bytes from the data area to the end of the image are those of the image with
/// the root directory in place.
pub proof fn lemma_final_above_table(m: BfsModel, p: int)
    requires
        m.wf(),
        DATA_START * BSIZE <= p < m.image.len(),
    ensures
        m.final_image()[p] == with_root_dir(m)[p],
{
    lemma_root_dir_place(m);
    let with_table = inode_table(with_root_dir(m), m.finished_inodes(), INODE_COUNT as nat);
    lemma_inode_table_len(with_root_dir(m), m.finished_inodes(), INODE_COUNT as nat);
    lemma_inode_table_frame(with_root_dir(m), m.finished_inodes(), INODE_COUNT as nat, p);
}

/// The bytes of the data area that hold file data are kept when the image is
/// finished: the root directory goes after them, and the inode table and
/// superblock before them.
pub proof fn law_file_data_kept(m: BfsModel)
    requires
        m.wf(),
    ensures
        forall|p: int|
            DATA_START * BSIZE <= p < m.next_data_block * BSIZE ==> #[trigger] m.final_image()[p]
                == m.image[p],
{
    lemma_root_dir_place(m);
    assert forall|p: int| DATA_START * BSIZE <= p < m.next_data_block * BSIZE implies #[trigger] m.final_image()[p]
        == m.image[p] by {
        lemma_final_above_table(m, p);
    }
}

/// The root directory of a finished image: its inode (slot 0 of the table)
/// records the blocks right after the file data, and those blocks hold the
/// directory entries in order, "." and ".." first, 16 bytes each.
#[verifier::spinoff_prover]
#[verifier::rlimit(40)]
pub proof fn law_root_directory(m: BfsModel)
    requires
        m.wf(),
        m.finish_outcome() is Ok,
    ensures
        ({
            let img = m.final_image();
            let start = m.next_data_block;
            let n = m.entries.len();
            &&& read_le16(img, inode_offset(0)) == 2
            &&& read_le32(img, inode_offset(0) + 4) == start
            &&& read_le32(img, inode_offset(0) + 8) == start + ceil_div(16 * n, BSIZE as nat) - 1
            &&& read_le32(img, inode_offset(0) + 12) == start * BSIZE + 16 * n - 1
            &&& read_le32(img, inode_offset(0) + 16) == crate::layout::VDIR
            &&& read_le32(img, inode_offset(0) + 32) == 2
            &&& m.entries[0].name == stored_name(seq![46u8])
            &&& m.entries[1].name == stored_name(seq![46u8, 46u8])
            &&& forall|k: int, i: int|
                0 <= k < n && 0 <= i < 16 ==> #[trigger] img[start * BSIZE + 16 * k + i]
                    == dirent_bytes(#[trigger] m.entries[k])[i]
        }),
{
    lemma_root_dir_place(m);
    law_image_length(m);
    let img = m.final_image();
    let start = m.next_data_block;
    let n = m.entries.len();
    let wd = with_root_dir(m);
    let root = m.finished_root();
    assert(m.finished_inodes()[0] == Some(root));
    let w = root.written(wd, inode_offset(0));
    lemma_inode_table_len(wd, m.finished_inodes(), INODE_COUNT as nat);
    assert forall|p: int| inode_offset(0) <= p < inode_offset(0) + INODE_SIZE implies img[p]
        == w[p] by {
        lemma_inode_table_slot(wd, m.finished_inodes(), INODE_COUNT as nat, 0, p);
    }
    lemma_record_reads_back(root, wd, inode_offset(0));
    assert forall|k: int, i: int| 0 <= k < n && 0 <= i < 16 implies #[trigger] img[start * BSIZE
        + 16 * k + i] == dirent_bytes(#[trigger] m.entries[k])[i] by {
        lemma_final_above_table(m, start * BSIZE + 16 * k + i);
        lemma_dirents_bytes_at(m.entries, k, i);
    }
}

/// Each slot of the finished inode table: a used slot reads back as its inode
/// (the root with its directory blocks, any other as the file added), an unused
/// slot keeps the bytes it had.
#[verifier::spinoff_prover]
#[verifier::rlimit(40)]
pub proof fn law_inode_records(m: BfsModel, slot: int)
    requires
        m.wf(),
        0 <= slot < INODE_COUNT,
    ensures
        ({
            let img = m.final_image();
            let off = inode_offset(slot);
            match m.finished_inodes()[slot] {
                Some(f) => {
                    &&& read_le16(img, off) == f.ino
                    &&& read_le32(img, off + 4) == f.sblock
                    &&& read_le32(img, off + 8) == f.eblock
                    &&& read_le32(img, off + 12) == f.eoffset
                    &&& read_le32(img, off + 16) == f.vtype
                    &&& read_le32(img, off + 20) == f.mode
                    &&& read_le32(img, off + 24) == f.uid
                    &&& read_le32(img, off + 28) == f.gid
                    &&& read_le32(img, off + 32) == f.nlink
                    &&& read_le32(img, off + 36) == f.atime
                    &&& read_le32(img, off + 40) == f.mtime
                    &&& read_le32(img, off + 44) == f.ctime
                },
                None => forall|p: int| off <= p < off + INODE_SIZE ==> #[trigger] img[p] == m.image[p],
            }
        }),
{
    lemma_root_dir_place(m);
    law_image_length(m);
    let img = m.final_image();
    let off = inode_offset(slot);
    let wd = with_root_dir(m);
    let ins = m.finished_inodes();
    lemma_inode_table_len(wd, ins, INODE_COUNT as nat);
    match ins[slot] {
        Some(f) => {
            let w = f.written(wd, off);
            assert forall|p: int| off <= p < off + INODE_SIZE implies img[p] == w[p] by {
                lemma_inode_table_slot(wd, ins, INODE_COUNT as nat, slot, p);
            }
            lemma_record_reads_back(f, wd, off);
        },
        None => {
            assert forall|p: int| off <= p < off + INODE_SIZE implies #[trigger] img[p]
                == m.image[p] by {
                lemma_inode_table_unused(wd, ins, INODE_COUNT as nat, slot, p);
            }
        },
    }
}

/// A file added to the image can be read back: its inode records a run of
/// `ceil(len / 512)` blocks from the first free block, whose first `len` bytes are
/// the file's data; once the image is finished, both the data and the inode
/// record are found there.
pub proof fn law_add_then_read(
    m: BfsModel,
    name: Seq<u8>,
    data: Seq<u8>,
    st_mode: u32,
    uid: u32,
    gid: u32,
)
    requires
        m.wf(),
        m.add_outcome(name, data.len()) is Ok,
        data.len() > 0,
    ensures
        ({
            let m2 = m.with_file(name, data, st_mode, uid, gid);
            let slot = m.next_inode - 2;
            let f = m2.inodes[slot]->0;
            &&& m2.inodes[slot] is Some
            &&& f.sblock == m.next_data_block
            &&& f.eblock - f.sblock + 1 == ceil_div(data.len(), BSIZE as nat)
            &&& f.eoffset + 1 - f.sblock * BSIZE == data.len()
            &&& m2.image.subrange(f.sblock * BSIZE, f.eoffset + 1) == data
            &&& m2.finish_outcome() is Ok ==> {
                let img = m2.final_image();
                &&& img.subrange(f.sblock * BSIZE, f.eoffset + 1) == data
                &&& read_le32(img, inode_offset(slot) + 4) == f.sblock
                &&& read_le32(img, inode_offset(slot) + 8) == f.eblock
                &&& read_le32(img, inode_offset(slot) + 12) == f.eoffset
            }
        }),
{
    lemma_ceil_div_bounds(data.len());
    crate::image::lemma_with_file_wf(m, name, data, st_mode, uid, gid);
    let m2 = m.with_file(name, data, st_mode, uid, gid);
    let slot = m.next_inode - 2;
    let f = m2.inodes[slot]->0;
    assert(m2.image.subrange(f.sblock * BSIZE, f.eoffset + 1) =~= data);
    if m2.finish_outcome() is Ok {
        law_file_data_kept(m2);
        law_image_length(m2);
        let img = m2.final_image();
        assert(img.subrange(f.sblock * BSIZE, f.eoffset + 1) =~= data) by {
            assert forall|i: int| 0 <= i < data.len() implies #[trigger] data[i] == img[f.sblock
                * BSIZE + i] by {
                assert(img[f.sblock * BSIZE + i] == m2.image[f.sblock * BSIZE + i]);
                assert(m2.image.subrange(f.sblock * BSIZE, f.eoffset + 1)[i] == data[i]);
            }
        }
        law_inode_records(m2, slot);
        assert(m2.finished_inodes()[slot] == m2.inodes[slot]);
    }
}

/// Adding a file changes nothing that was there: bytes below the first free
/// block, the other inode slots and the existing directory entries stay.
pub proof fn law_add_keeps_earlier(
    m: BfsModel,
    name: Seq<u8>,
    data: Seq<u8>,
    st_mode: u32,
    uid: u32,
    gid: u32,
)
    requires
        m.wf(),
        m.add_outcome(name, data.len()) is Ok,
    ensures
        ({
            let m2 = m.with_file(name, data, st_mode, uid, gid);
            &&& m2.image.len() == m.image.len()
            &&& forall|p: int| 0 <= p < m.next_data_block * BSIZE ==> #[trigger] m2.image[p] == m.image[p]
            &&& forall|i: int|
                0 <= i < INODE_COUNT && i != m.next_inode - 2 ==> #[trigger] m2.inodes[i]
                    == m.inodes[i]
            &&& m2.entries.take(m.entries.len() as int) == m.entries
            &&& m2.next_data_block >= m.next_data_block
        }),
{
    let m2 = m.with_file(name, data, st_mode, uid, gid);
    assert(m2.entries.take(m.entries.len() as int) =~= m.entries);
}

/// Adding a name that is already in the directory is refused.
pub proof fn law_same_name_refused(
    m: BfsModel,
    name: Seq<u8>,
    data: Seq<u8>,
    st_mode: u32,
    uid: u32,
    gid: u32,
    len: nat,
)
    requires
        m.wf(),
        m.add_outcome(name, data.len()) is Ok,
    ensures
        m.with_file(name, data, st_mode, uid, gid).add_outcome(name, len) == Err::<(), BfsError>(
            BfsError::DuplicateName,
        ),
{
    let m2 = m.with_file(name, data, st_mode, uid, gid);
    let k = m.entries.len() as int;
    let kl = kept_len(name.len());
    assert(m2.entries[k].name.take(kl as int) =~= name.take(kl as int));
    assert(collides(m2.entries[k].name, name));
}

/// Names are kept to 14 bytes: once a name of 14 bytes or more is in the
/// directory, a name with the same first 14 bytes is refused.
pub proof fn law_truncated_duplicate(
    m: BfsModel,
    a: Seq<u8>,
    data: Seq<u8>,
    st_mode: u32,
    uid: u32,
    gid: u32,
    b: Seq<u8>,
    len: nat,
)
    requires
        m.wf(),
        m.add_outcome(a, data.len()) is Ok,
        a.len() >= NAMELEN,
        b.len() >= NAMELEN,
        a.take(NAMELEN as int) == b.take(NAMELEN as int),
    ensures
        m.with_file(a, data, st_mode, uid, gid).add_outcome(b, len) == Err::<(), BfsError>(
            BfsError::DuplicateName,
        ),
{
    let m2 = m.with_file(a, data, st_mode, uid, gid);
    let k = m.entries.len() as int;
    assert(m2.entries[k].name.take(14) =~= b.take(14)) by {
        assert forall|i: int| 0 <= i < 14 implies m2.entries[k].name[i] == b[i] by {
            assert(a.take(14)[i] == b.take(14)[i]);
        }
    }
    assert(collides(m2.entries[k].name, b));
}

/// The root directory holds at most 503 files besides "." and ".."; once it
/// holds that many, every further file is refused.
pub proof fn law_file_limit(m: BfsModel, name: Seq<u8>, len: nat)
    requires
        m.wf(),
    ensures
        m.entries.len() <= 2 + 503,
        m.entries.len() == 2 + 503 ==> m.add_outcome(name, len) is Err,
{
}

/// The names in the directory are pairwise different, and so are the inodes that
/// the entries after "." and ".." name.
pub proof fn law_names_distinct(m: BfsModel)
    requires
        m.wf(),
    ensures
        forall|k1: int, k2: int|
            0 <= k1 < m.entries.len() && 0 <= k2 < m.entries.len() && k1 != k2
                ==> #[trigger] m.entries[k1].name != #[trigger] m.entries[k2].name,
        forall|k1: int, k2: int|
            2 <= k1 < m.entries.len() && 2 <= k2 < m.entries.len() && k1 != k2
                ==> #[trigger] m.entries[k1].ino != #[trigger] m.entries[k2].ino,
{
    assert forall|k1: int, k2: int|
        0 <= k1 < m.entries.len() && 0 <= k2 < m.entries.len() && k1 != k2
            implies #[trigger] m.entries[k1].name != #[trigger] m.entries[k2].name by {
        if k1 > k2 {
            assert(m.entries[k2].name != m.entries[k1].name);
        }
    }
    assert forall|k1: int, k2: int|
        2 <= k1 < m.entries.len() && 2 <= k2 < m.entries.len() && k1 != k2
            implies #[trigger] m.entries[k1].ino != #[trigger] m.entries[k2].ino by {
        if k1 > k2 {
            assert(m.entries[k2].ino < m.entries[k1].ino);
        }
    }
}

/// The block runs of files never overlap: each file with data lies in the data
/// area below the first free block, two such files share no block, and the root
/// directory, once placed, comes after all of them.
pub proof fn law_extents_disjoint(m: BfsModel)
    requires
        m.wf(),
    ensures
        forall|i: int|
            1 <= i < INODE_COUNT && #[trigger] m.inodes[i] is Some && has_blocks(m.inodes[i]->0)
                ==> DATA_START <= m.inodes[i]->0.sblock <= m.inodes[i]->0.eblock
                < m.next_data_block,
        forall|i: int, j: int|
            1 <= i < INODE_COUNT && 1 <= j < INODE_COUNT && i != j && #[trigger] m.inodes[i] is Some
                && #[trigger] m.inodes[j] is Some && has_blocks(m.inodes[i]->0) && has_blocks(
                m.inodes[j]->0,
            ) ==> m.inodes[i]->0.eblock < m.inodes[j]->0.sblock || m.inodes[j]->0.eblock
                < m.inodes[i]->0.sblock,
        forall|i: int|
            1 <= i < INODE_COUNT && #[trigger] m.inodes[i] is Some && has_blocks(m.inodes[i]->0)
                ==> m.inodes[i]->0.eblock < m.finished_root().sblock,
{
    lemma_root_dir_place(m);
    assert forall|i: int|
        1 <= i < INODE_COUNT && #[trigger] m.inodes[i] is Some && has_blocks(m.inodes[i]->0)
            implies DATA_START <= m.inodes[i]->0.sblock <= m.inodes[i]->0.eblock
            < m.next_data_block by {
        assert(m.extent_ok(m.inodes[i]->0));
    }
    assert forall|i: int, j: int|
        1 <= i < INODE_COUNT && 1 <= j < INODE_COUNT && i != j && #[trigger] m.inodes[i] is Some
            && #[trigger] m.inodes[j] is Some && has_blocks(m.inodes[i]->0) && has_blocks(
            m.inodes[j]->0,
        ) implies m.inodes[i]->0.eblock < m.inodes[j]->0.sblock || m.inodes[j]->0.eblock
            < m.inodes[i]->0.sblock by {
        if i > j {
            assert(m.inodes[j]->0.eblock < m.inodes[i]->0.sblock);
        }
    }
    assert forall|i: int|
        1 <= i < INODE_COUNT && #[trigger] m.inodes[i] is Some && has_blocks(m.inodes[i]->0)
            implies m.inodes[i]->0.eblock < m.finished_root().sblock by {
        assert(m.extent_ok(m.inodes[i]->0));
    }
}

/// Every directory entry after "." and ".." names the inode slot of its file,
/// and the entries "." and ".." name the root.
pub proof fn law_entries_name_inodes(m: BfsModel, k: int)
    requires
        m.wf(),
        0 <= k < m.entries.len(),
    ensures
        k < 2 ==> m.entries[k].ino == 2,
        k >= 2 ==> {
            let slot = m.entries[k].ino - 2;
            &&& m.inodes[slot] is Some
            &&& m.inodes[slot]->0.ino == m.entries[k].ino
        },
{
}

/// Reserving `a` blocks and then `b` blocks gives two adjacent runs: the second
/// starts where the first ends, and the result is that of reserving `a + b`.
pub proof fn law_reserve_adjacent(m: BfsModel, a: nat, b: nat)
    ensures
        m.reserved(a).next_data_block == m.next_data_block + a,
        m.reserved(a).reserved(b) == m.reserved(a + b),
{
}

/// A file to be added: its name, its data and its attributes on the host.
pub struct NewFile {
    pub name: Seq<u8>,
    pub data: Seq<u8>,
    pub st_mode: u32,
    pub uid: u32,
    pub gid: u32,
}

/// The state after adding the files `fs` one after the other.
pub open spec fn add_all(m: BfsModel, fs: Seq<NewFile>) -> BfsModel
    decreases fs.len(),
{
    if fs.len() == 0 {
        m
    } else {
        let f = fs.last();
        add_all(m, fs.drop_last()).with_file(f.name, f.data, f.st_mode, f.uid, f.gid)
    }
}

/// Whether every one of the files `fs`, added one after the other, is accepted.
pub open spec fn all_added(m: BfsModel, fs: Seq<NewFile>) -> bool
    decreases fs.len(),
{
    fs.len() == 0 || (all_added(m, fs.drop_last()) && add_all(m, fs.drop_last()).add_outcome(
        fs.last().name,
        fs.last().data.len(),
    ) is Ok)
}

/// Accepted adds keep the invariant, and each takes one inode and one entry.
pub proof fn lemma_add_all(m: BfsModel, fs: Seq<NewFile>)
    requires
        m.wf(),
        all_added(m, fs),
    ensures
        add_all(m, fs).wf(),
        add_all(m, fs).next_inode == m.next_inode + fs.len(),
        add_all(m, fs).entries.len() == m.entries.len() + fs.len(),
        add_all(m, fs).next_data_block >= m.next_data_block,
        add_all(m, fs).image.len() == m.image.len(),
        add_all(m, fs).now == m.now,
    decreases fs.len(),
{
    if fs.len() > 0 {
        let init = fs.drop_last();
        let f = fs.last();
        lemma_add_all(m, init);
        crate::image::lemma_with_file_wf(add_all(m, init), f.name, f.data, f.st_mode, f.uid, f.gid);
    }
}

/// A run of accepted adds starts with accepted adds.
pub proof fn lemma_all_added_prefix(m: BfsModel, fs: Seq<NewFile>, k: int)
    requires
        all_added(m, fs),
        0 <= k <= fs.len(),
    ensures
        all_added(m, fs.take(k)),
    decreases fs.len(),
{
    if k == fs.len() {
        assert(fs.take(k) =~= fs);
    } else {
        let init = fs.drop_last();
        assert(init.take(k) =~= fs.take(k));
        lemma_all_added_prefix(m, init, k);
    }
}

/// Later adds keep what earlier ones left: the bytes below the first free block,
/// the inode slots in use and the directory entries.
pub proof fn lemma_add_all_keeps(m: BfsModel, fs: Seq<NewFile>, k: int)
    requires
        m.wf(),
        all_added(m, fs),
        0 <= k <= fs.len(),
    ensures
        ({
            let mk = add_all(m, fs.take(k));
            let mf = add_all(m, fs);
            &&& mf.image.len() == mk.image.len()
            &&& mf.next_data_block >= mk.next_data_block
            &&& forall|p: int| 0 <= p < mk.next_data_block * BSIZE ==> #[trigger] mf.image[p] == mk.image[p]
            &&& forall|i: int| 0 <= i < mk.next_inode - 2 ==> #[trigger] mf.inodes[i] == mk.inodes[i]
            &&& mf.entries.take(mk.entries.len() as int) == mk.entries
        }),
    decreases fs.len(),
{
    if k == fs.len() {
        assert(fs.take(k) =~= fs);
        assert(add_all(m, fs).entries.take(add_all(m, fs).entries.len() as int) =~= add_all(m, fs).entries);
    } else {
        let init = fs.drop_last();
        let f = fs.last();
        assert(init.take(k) =~= fs.take(k));
        lemma_add_all_keeps(m, init, k);
        lemma_all_added_prefix(m, fs, k);
        lemma_add_all(m, init);
        lemma_add_all(m, fs.take(k));
        let mi = add_all(m, init);
        let mk = add_all(m, fs.take(k));
        law_add_keeps_earlier(mi, f.name, f.data, f.st_mode, f.uid, f.gid);
        let mf = add_all(m, fs);
        assert(mf.entries.take(mk.entries.len() as int) =~= mk.entries) by {
            assert forall|i: int| 0 <= i < mk.entries.len() implies mf.entries[i] == mk.entries[i] by {
                assert(mf.entries.take(mi.entries.len() as int)[i] == mi.entries[i]);
                assert(mi.entries.take(mk.entries.len() as int)[i] == mk.entries[i]);
            }
        }
    }
}

/// Every file added to an image can be read back once the image is finished,
/// however many files came after it: the `j`-th file has inode
/// `next_inode + j`, whose record in the inode table names a run of blocks
/// holding exactly its data, and the directory entry after the earlier ones
/// names that inode under the file's (truncated) name.
#[verifier::spinoff_prover]
#[verifier::rlimit(40)]
pub proof fn law_every_file_reads_back(m: BfsModel, fs: Seq<NewFile>, j: int)
    requires
        m.wf(),
        all_added(m, fs),
        0 <= j < fs.len(),
        fs[j].data.len() > 0,
        add_all(m, fs).finish_outcome() is Ok,
    ensures
        ({
            let mf = add_all(m, fs);
            let slot = m.next_inode - 2 + j;
            let f = mf.inodes[slot]->0;
            let img = mf.final_image();
            let off = inode_offset(slot);
            &&& mf.inodes[slot] is Some
            &&& read_le16(img, off) == m.next_inode + j
            &&& read_le32(img, off + 4) == f.sblock
            &&& read_le32(img, off + 12) == f.eoffset
            &&& read_le32(img, off + 16) == crate::layout::VREG
            &&& f.eoffset + 1 - f.sblock * BSIZE == fs[j].data.len()
            &&& img.subrange(f.sblock * BSIZE, f.eoffset + 1) == fs[j].data
            &&& mf.entries[m.entries.len() + j] == (DirentView {
                ino: (m.next_inode + j) as u16,
                name: stored_name(fs[j].name),
            })
            &&& mf.inodes[slot] == add_all(m, fs.take(j + 1)).inodes[slot]
        }),
{
    let nf = fs[j];
    let mf = add_all(m, fs);
    let slot = m.next_inode - 2 + j;
    lemma_all_added_prefix(m, fs, j + 1);
    let t = fs.take(j + 1);
    assert(t.drop_last() =~= fs.take(j));
    assert(t.last() == nf);
    let mj = add_all(m, fs.take(j));
    let mj1 = add_all(m, t);
    assert(mj1 == mj.with_file(nf.name, nf.data, nf.st_mode, nf.uid, nf.gid));
    assert(all_added(m, fs.take(j)));
    lemma_add_all(m, fs.take(j));
    lemma_add_all(m, t);
    lemma_add_all(m, fs);
    law_add_then_read(mj, nf.name, nf.data, nf.st_mode, nf.uid, nf.gid);
    crate::image::lemma_with_file_wf(mj, nf.name, nf.data, nf.st_mode, nf.uid, nf.gid);
    lemma_add_all_keeps(m, fs, j + 1);
    let f = mj1.inodes[slot]->0;
    assert(mf.inodes[slot] == mj1.inodes[slot]);
    lemma_ceil_div_bounds(nf.data.len());
    assert(f.eoffset < mj1.next_data_block * BSIZE);
    law_file_data_kept(mf);
    law_image_length(mf);
    let img = mf.final_image();
    assert(img.subrange(f.sblock * BSIZE, f.eoffset + 1) =~= nf.data) by {
        assert forall|i: int| 0 <= i < nf.data.len() implies #[trigger] nf.data[i] == img[f.sblock
            * BSIZE + i] by {
            assert(img[f.sblock * BSIZE + i] == mf.image[f.sblock * BSIZE + i]);
            assert(mf.image[f.sblock * BSIZE + i] == mj1.image[f.sblock * BSIZE + i]);
            assert(mj1.image.subrange(f.sblock * BSIZE, f.eoffset + 1)[i] == nf.data[i]);
        }
    }
    law_inode_records(mf, slot);
    assert(mf.finished_inodes()[slot] == mf.inodes[slot]);
    assert(mf.entries[m.entries.len() + j] == mf.entries.take(mj1.entries.len() as int)[m.entries.len() + j]);
}

/// Every file added to an image carries its own attributes and name once the
/// image is finished, however many files came after it: the `j`-th file's inode
/// record holds the host's permission bits, owner and group, a regular file's
/// type, one link and the image's time stamp; its directory entry holds its
/// inode number and its name's first 14 bytes, padded with zero bytes.
#[verifier::spinoff_prover]
#[verifier::rlimit(40)]
pub proof fn law_every_file_attributes(m: BfsModel, fs: Seq<NewFile>, j: int)
    requires
        m.wf(),
        all_added(m, fs),
        0 <= j < fs.len(),
        fs[j].data.len() > 0,
        add_all(m, fs).finish_outcome() is Ok,
    ensures
        ({
            let mf = add_all(m, fs);
            let slot = m.next_inode - 2 + j;
            let img = mf.final_image();
            let off = inode_offset(slot);
            &&& read_le32(img, off + 20) & 0o777 == fs[j].st_mode & 0o777
            &&& read_le32(img, off + 20) >> 9u32 == 0o100
            &&& read_le32(img, off + 24) == fs[j].uid
            &&& read_le32(img, off + 28) == fs[j].gid
            &&& read_le32(img, off + 32) == 1
            &&& read_le32(img, off + 36) == m.now
            &&& read_le32(img, off + 40) == m.now
            &&& read_le32(img, off + 44) == m.now
        }),
        ({
            let mf = add_all(m, fs);
            let img = mf.final_image();
            let e = mf.next_data_block * BSIZE + 16 * (m.entries.len() + j);
            &&& read_le16(img, e) == m.next_inode + j
            &&& forall|i: int|
                0 <= i < NAMELEN ==> #[trigger] img[e + 2 + i] == if i < fs[j].name.len() {
                    fs[j].name[i]
                } else {
                    0u8
                }
        }),
{
    let nf = fs[j];
    let mf = add_all(m, fs);
    let slot = m.next_inode - 2 + j;
    law_every_file_reads_back(m, fs, j);
    lemma_all_added_prefix(m, fs, j + 1);
    let t = fs.take(j + 1);
    assert(t.drop_last() =~= fs.take(j));
    assert(t.last() == nf);
    let mj = add_all(m, fs.take(j));
    assert(all_added(m, fs.take(j)));
    lemma_add_all(m, fs.take(j));
    lemma_add_all(m, fs);
    law_file_attributes(mj, nf.name, nf.data, nf.st_mode, nf.uid, nf.gid);
    law_inode_records(mf, slot);
    assert(mf.finished_inodes()[slot] == mf.inodes[slot]);
    law_directory_on_disk(mf);
    let k = m.entries.len() + j;
    assert(mf.entries[k].name == stored_name(nf.name));
    assert(mf.entries[k].ino == m.next_inode + j);
    let img = mf.final_image();
    let dir = mf.next_data_block * BSIZE;
    let e = dir + 16 * k;
    assert(read_le16(img, dir + 16 * k) == mf.entries[k].ino);
    assert forall|i: int| 0 <= i < NAMELEN implies #[trigger] img[e + 2 + i] == if i < nf.name.len() {
        nf.name[i]
    } else {
        0u8
    } by {
        assert(img[dir + 16 * k + 2 + i] == mf.entries[k].name[i]);
    }
}

/// The mode recorded for a file keeps exactly the permission bits (`0o777`) of
/// the host's mode and marks the file as regular (`S_IFREG`, no other bits).
pub proof fn lemma_file_mode_bits(st_mode: u32)
    ensures
        (S_IFREG | (st_mode & 0o777)) & 0o777 == st_mode & 0o777,
        (S_IFREG | (st_mode & 0o777)) >> 9u32 == 0o100,
{
    assert((0o100_000u32 | (st_mode & 0o777u32)) & 0o777u32 == st_mode & 0o777u32) by (bit_vector);
    assert((0o100_000u32 | (st_mode & 0o777u32)) >> 9u32 == 0o100u32) by (bit_vector);
}

/// The inode of an added file carries the host's permission bits, owner and
/// group, marks a regular file with one link, and is stamped with the image's
/// time.
pub proof fn law_file_attributes(
    m: BfsModel,
    name: Seq<u8>,
    data: Seq<u8>,
    st_mode: u32,
    uid: u32,
    gid: u32,
)
    requires
        m.wf(),
        m.add_outcome(name, data.len()) is Ok,
    ensures
        ({
            let f = m.with_file(name, data, st_mode, uid, gid).inodes[m.next_inode - 2]->0;
            &&& f.ino == m.next_inode
            &&& f.mode & 0o777 == st_mode & 0o777
            &&& f.mode >> 9u32 == 0o100
            &&& f.vtype == crate::layout::VREG
            &&& f.uid == uid
            &&& f.gid == gid
            &&& f.nlink == 1
            &&& f.atime == m.now
            &&& f.mtime == m.now
            &&& f.ctime == m.now
        }),
{
    lemma_file_mode_bits(st_mode);
}

/// The entries of the root directory on disk: at 16-byte steps from the
/// directory's first block, each holds its inode number and then its 14 name
/// bytes exactly as stored.
#[verifier::spinoff_prover]
#[verifier::rlimit(40)]
pub proof fn law_directory_on_disk(m: BfsModel)
    requires
        m.wf(),
        m.finish_outcome() is Ok,
    ensures
        ({
            let img = m.final_image();
            let dir = m.next_data_block * BSIZE;
            &&& forall|k: int|
                0 <= k < m.entries.len() ==> read_le16(img, dir + 16 * k) == #[trigger] m.entries[k].ino
            &&& forall|k: int, i: int|
                0 <= k < m.entries.len() && 0 <= i < NAMELEN ==> #[trigger] img[dir + 16 * k + 2 + i]
                    == #[trigger] m.entries[k].name[i]
        }),
{
    law_root_directory(m);
    lemma_root_dir_place(m);
    law_image_length(m);
    let img = m.final_image();
    let dir = m.next_data_block * BSIZE;
    assert forall|k: int| 0 <= k < m.entries.len() implies read_le16(img, dir + 16 * k)
        == #[trigger] m.entries[k].ino by {
        let e = m.entries[k];
        assert(img[dir + 16 * k + 0] == dirent_bytes(e)[0]);
        assert(img[dir + 16 * k + 1] == dirent_bytes(e)[1]);
        lemma_read_le16(img, dir + 16 * k, e.ino);
    }
    assert forall|k: int, i: int| 0 <= k < m.entries.len() && 0 <= i < NAMELEN implies #[trigger] img[dir
        + 16 * k + 2 + i] == #[trigger] m.entries[k].name[i] by {
        assert(img[dir + 16 * k + (2 + i)] == dirent_bytes(m.entries[k])[2 + i]);
    }
}

/// Whether a new name `bytes` clashes, byte by byte, with the stored name
/// `stored`: their first `min(len, 14)` bytes are the same, and either the new
/// name has 14 bytes or more or the stored name has a zero byte right after them.
pub open spec fn clashes_bytewise(stored: Seq<u8>, bytes: Seq<u8>) -> bool {
    &&& forall|i: int| 0 <= i < bytes.len() && i < NAMELEN ==> #[trigger] stored[i] == bytes[i]
    &&& (bytes.len() >= NAMELEN || stored[bytes.len() as int] == 0)
}

/// The clash rule compares bytes exactly: a name clashes with a stored name just
/// when they agree byte for byte on the new name's first 14 bytes and the stored
/// name ends there.
pub proof fn law_clash_rule(stored: Seq<u8>, bytes: Seq<u8>)
    requires
        stored.len() == NAMELEN,
    ensures
        collides(stored, bytes) <==> clashes_bytewise(stored, bytes),
{
    let kl = kept_len(bytes.len());
    if clashes_bytewise(stored, bytes) {
        assert(stored.take(kl as int) =~= bytes.take(kl as int));
    }
    if collides(stored, bytes) {
        assert forall|i: int| 0 <= i < bytes.len() && i < NAMELEN implies #[trigger] stored[i] == bytes[i] by {
            assert(stored.take(kl as int)[i] == bytes.take(kl as int)[i]);
        }
    }
}

/// A name is refused as a duplicate just when some entry of the directory holds
/// a name that it clashes with byte for byte.
pub proof fn law_name_refused_iff(m: BfsModel, name: Seq<u8>)
    requires
        m.wf(),
    ensures
        (m.name_outcome(name) == Err::<(), BfsError>(BfsError::DuplicateName)) <==> exists|k: int|
            0 <= k < m.entries.len() && clashes_bytewise(#[trigger] m.entries[k].name, name),
{
    assert forall|k: int| 0 <= k < m.entries.len() implies collides(#[trigger] m.entries[k].name, name)
        == clashes_bytewise(m.entries[k].name, name) by {
        law_clash_rule(m.entries[k].name, name);
    }
}

/// Which sizes make an image: every size from 1 to 4095 megabytes does, giving
/// 2048 blocks per megabyte; 0 is too small and 4096 or more too large for
/// 32-bit offsets.
pub proof fn law_image_sizes(size_mb: nat, now: u32)
    ensures
        1 <= size_mb <= 4095 ==> {
            &&& new_outcome(size_mb) is Ok
            &&& BfsModel::initial(size_mb, now).total_blocks == size_mb * 2048
            &&& BfsModel::initial(size_mb, now).image.len() == size_mb * 1024 * 1024
        },
        size_mb == 0 ==> new_outcome(size_mb) == Err::<(), BfsError>(BfsError::FilesystemTooSmall),
        size_mb >= 4096 ==> new_outcome(size_mb) == Err::<(), BfsError>(BfsError::ImageTooLarge),
{
    if size_mb <= 4095 {
        assert(size_mb * 1024 * 1024 <= 4095 * 1024 * 1024) by (nonlinear_arith)
            requires
                size_mb <= 4095,
        ;
    } else {
        assert(size_mb * 1024 * 1024 >= 4096 * 1024 * 1024) by (nonlinear_arith)
            requires
                size_mb >= 4096,
        ;
    }
    assert((size_mb * 1024 * 1024) / 512 == size_mb * 2048) by (nonlinear_arith);
}

} // verus!
