//! The file abstraction: a byte-addressed stream mapped onto fixed-size
//! chunks, with both a stream cursor and explicit-offset access.
use crate::error::Error;
use crate::storage::Storage;
use crate::types::{FdStat, FileSize, FileType, Node, Whence, MAX_FILE_SIZE};
use vstd::prelude::*;

verus! {

/// The content of a file after writing `data` at `offset`: the write region
/// holds `data`, positions below the old length keep their bytes, and any
/// gap between the old end and `offset` reads as zero.
pub open spec fn write_bytes(content: Seq<u8>, offset: int, data: Seq<u8>) -> Seq<u8> {
    let new_len = if offset + data.len() > content.len() {
        offset + data.len()
    } else {
        content.len() as int
    };
    Seq::new(
        new_len as nat,
        |i: int|
            if offset <= i < offset + data.len() {
                data[i - offset]
            } else if i < content.len() {
                content[i]
            } else {
                0u8
            },
    )
}

/// How many bytes a read of `want` bytes at `offset` returns from a file of
/// `size` bytes: reads stop at end of file and never error there.
pub open spec fn read_len(size: int, offset: int, want: int) -> int {
    if offset >= size {
        0
    } else if offset + want <= size {
        want
    } else {
        size - offset
    }
}

/// Law: a write immediately followed by a read at the same offset returns
/// exactly the written bytes, whatever the previous content was.
pub proof fn lemma_write_read_round_trip(content: Seq<u8>, offset: int, data: Seq<u8>)
    requires
        0 <= offset,
    ensures
        read_len(write_bytes(content, offset, data).len() as int, offset, data.len() as int)
            == data.len(),
        write_bytes(content, offset, data).subrange(offset, offset + data.len()) =~= data,
{
}

/// Law: growing a file by writing past its end leaves every gap byte —
/// between the old end and the write offset — reading as zero.
pub proof fn lemma_sparse_gap_zero(content: Seq<u8>, offset: int, data: Seq<u8>, i: int)
    requires
        content.len() <= i < offset,
    ensures
        write_bytes(content, offset, data)[i] == 0,
{
}

/// An open regular file: the node it references, the per-descriptor stat,
/// and the stream cursor. A handle value, owned by the descriptor table.
#[derive(Clone, Copy, Debug)]
pub struct File {
    pub node: Node,
    pub stat: FdStat,
    pub cursor: FileSize,
}

impl File {
    /// The stream cursor: the absolute offset the next cursor read or
    /// write starts at.
    pub open spec fn pos(self) -> FileSize {
        self.cursor
    }

    /// Opens the node as a file; the cursor starts at zero.
    pub fn new(node: Node, stat: FdStat, storage: &Storage) -> (res: Result<File, Error>)
        ensures
            match res {
                Ok(f) => {
                    &&& storage.metas().contains_key(node)
                    &&& storage.metas()[node].file_type == FileType::RegularFile
                    &&& f.node == node
                    &&& f.stat == stat
                    &&& f.pos() == 0
                },
                Err(e) => {
                    &&& (e == Error::NotFound && !storage.metas().contains_key(node))
                        || (e == Error::InvalidFileType && storage.metas().contains_key(node)
                        && storage.metas()[node].file_type != FileType::RegularFile)
                },
            },
    {
        let m = match storage.get_metadata(node) {
            Ok(m) => m,
            Err(e) => {
                return Err(e);
            },
        };
        match m.file_type {
            FileType::RegularFile => Ok(File { node, stat, cursor: 0 }),
            _ => Err(Error::InvalidFileType),
        }
    }

    /// The cursor position; never mutates state.
    pub fn tell(&self) -> (p: FileSize)
        ensures
            p == self.pos(),
    {
        self.cursor
    }

    /// Writes all of `src` at the given absolute offset. The file grows to
    /// cover the write where needed; gap bytes read back as zero. The
    /// persisted cursor is untouched.
    pub fn write_with_offset(
        &self,
        offset: FileSize,
        src: &[u8],
        storage: &mut Storage,
    ) -> (res: Result<FileSize, Error>)
        requires
            old(storage).metas().contains_key(self.node),
            old(storage).metas()[self.node].file_type == FileType::RegularFile,
            old(storage).file_ok(self.node),
            offset + src@.len() <= MAX_FILE_SIZE,
        ensures
            res == Result::<FileSize, Error>::Ok(src@.len() as FileSize),
            final(storage).metas() == old(storage).metas().insert(
                self.node,
                meta_with_size(
                    old(storage).metas()[self.node],
                    spec_max(old(storage).metas()[self.node].size as int, offset + src@.len()),
                ),
            ),
            final(storage).content(self.node) == write_bytes(
                old(storage).content(self.node),
                offset as int,
                src@,
            ),
            final(storage).file_ok(self.node),
            final(storage).entry_map() == old(storage).entry_map(),
            final(storage).lists() == old(storage).lists(),
            final(storage).next_node_id() == old(storage).next_node_id(),
            final(storage).next_entry_index() == old(storage).next_entry_index(),
            forall|q: (u64, u32)|
                q.0 != self.node ==> (#[trigger] final(storage).chunk_map().contains_key(q)
                    <==> old(storage).chunk_map().contains_key(q)),
            forall|q: (u64, u32)|
                q.0 != self.node && old(storage).chunk_map().contains_key(q)
                    ==> #[trigger] final(storage).chunk_map()[q] == old(storage).chunk_map()[q],
    {
        let m = match storage.get_metadata(self.node) {
            Ok(m) => m,
            Err(e) => {
                return Err(e);
            },
        };
        let len: usize = src.len();
        let mut k: usize = 0;
        while k < len
            invariant
                k <= len,
                len == src@.len(),
                offset + len <= MAX_FILE_SIZE,
                storage.metas() == old(storage).metas(),
                storage.entry_map() == old(storage).entry_map(),
                storage.lists() == old(storage).lists(),
                storage.next_node_id() == old(storage).next_node_id(),
                storage.next_entry_index() == old(storage).next_entry_index(),
                forall|p: int|
                    0 <= p < MAX_FILE_SIZE && !(offset <= p < offset + k)
                        ==> #[trigger] storage.byte_at(self.node, p) == old(storage).byte_at(
                        self.node,
                        p,
                    ),
                forall|p: int|
                    offset <= p < offset + k ==> #[trigger] storage.byte_at(self.node, p) == src@[p
                        - offset],
                forall|q: (u64, u32)|
                    q.0 != self.node ==> (#[trigger] storage.chunk_map().contains_key(q)
                        <==> old(storage).chunk_map().contains_key(q)),
                forall|q: (u64, u32)|
                    q.0 != self.node && old(storage).chunk_map().contains_key(q)
                        ==> #[trigger] storage.chunk_map()[q] == old(storage).chunk_map()[q],
                forall|ci: u32|
                    #[trigger] storage.chunk_map().contains_key((self.node, ci)) ==> old(
                        storage,
                    ).chunk_map().contains_key((self.node, ci)) || (ci as int) * 4096 < offset + k,
            decreases len - k,
        {
            let pos: FileSize = offset + k as FileSize;
            proof {
                crate::storage::lemma_pos_chunk(pos as int);
            }
            storage.write_byte(self.node, pos, src[k]);
            k += 1;
        }
        let written: FileSize = len as FileSize;
        let new_size: FileSize = if offset + written > m.size {
            offset + written
        } else {
            m.size
        };
        let mut m2 = m;
        m2.size = new_size;
        storage.put_metadata(self.node, m2);
        proof {
            let old_size = old(storage).metas()[self.node].size as int;
            assert forall|p: int| new_size <= p < MAX_FILE_SIZE implies #[trigger] storage.byte_at(
                self.node,
                p,
            ) == 0 by {
                assert(storage.byte_at(self.node, p) == old(storage).byte_at(self.node, p));
            }
            assert forall|ci: u32| #[trigger] storage.chunk_map().contains_key(
                (self.node, ci),
            ) implies (ci as int) * 4096 < new_size by {
                if old(storage).chunk_map().contains_key((self.node, ci)) {
                    assert((ci as int) * 4096 < old_size);
                }
            }
            assert(storage.content(self.node) =~= write_bytes(
                old(storage).content(self.node),
                offset as int,
                src@,
            ));
        }
        Ok(written)
    }

    /// Reads at the given absolute offset into `dst`, stopping at end of
    /// file; returns the number of bytes read. The cursor is untouched.
    pub fn read_with_offset(
        &self,
        offset: FileSize,
        dst: &mut [u8],
        storage: &Storage,
    ) -> (res: Result<FileSize, Error>)
        requires
            storage.metas().contains_key(self.node),
            storage.metas()[self.node].file_type == FileType::RegularFile,
            storage.file_ok(self.node),
        ensures
            ({
                let n = read_len(
                    storage.metas()[self.node].size as int,
                    offset as int,
                    old(dst)@.len() as int,
                );
                &&& res == Result::<FileSize, Error>::Ok(n as FileSize)
                &&& final(dst)@.len() == old(dst)@.len()
                &&& forall|i: int|
                    0 <= i < n ==> #[trigger] final(dst)@[i] == storage.content(self.node)[offset
                        + i]
                &&& forall|i: int|
                    n <= i < final(dst)@.len() ==> #[trigger] final(dst)@[i] == old(dst)@[i]
            }),
    {
        let m = match storage.get_metadata(self.node) {
            Ok(m) => m,
            Err(e) => {
                return Err(e);
            },
        };
        let want: usize = dst.len();
        let n: FileSize = if offset >= m.size {
            0
        } else if m.size - offset < want as FileSize {
            m.size - offset
        } else {
            want as FileSize
        };
        let mut k: usize = 0;
        while (k as FileSize) < n
            invariant
                k as int <= read_len(storage.metas()[self.node].size as int, offset as int, want as int),
                n == read_len(storage.metas()[self.node].size as int, offset as int, want as int),
                want == old(dst)@.len(),
                dst@.len() == old(dst)@.len(),
                n <= want,
                n > 0 ==> offset + n <= storage.metas()[self.node].size,
                storage.metas().contains_key(self.node),
                storage.file_ok(self.node),
                forall|i: int|
                    0 <= i < k ==> #[trigger] dst@[i] == storage.byte_at(self.node, offset + i),
                forall|i: int| k <= i < dst@.len() ==> #[trigger] dst@[i] == old(dst)@[i],
            decreases n - k,
        {
            let b = storage.read_byte(self.node, offset + k as FileSize);
            dst[k] = b;
            k += 1;
        }
        Ok(n)
    }

    /// Writes all of `src` at the stream cursor, then advances the cursor
    /// by the number of bytes written.
    pub fn write_with_cursor(&mut self, src: &[u8], storage: &mut Storage) -> (res: Result<
        FileSize,
        Error,
    >)
        requires
            old(storage).metas().contains_key(old(self).node),
            old(storage).metas()[old(self).node].file_type == FileType::RegularFile,
            old(storage).file_ok(old(self).node),
            old(self).pos() + src@.len() <= MAX_FILE_SIZE,
        ensures
            res == Result::<FileSize, Error>::Ok(src@.len() as FileSize),
            final(self).node == old(self).node,
            final(self).stat == old(self).stat,
            final(self).pos() == old(self).pos() + src@.len(),
            final(storage).metas() == old(storage).metas().insert(
                old(self).node,
                meta_with_size(
                    old(storage).metas()[old(self).node],
                    spec_max(
                        old(storage).metas()[old(self).node].size as int,
                        old(self).pos() + src@.len(),
                    ),
                ),
            ),
            final(storage).content(old(self).node) == write_bytes(
                old(storage).content(old(self).node),
                old(self).pos() as int,
                src@,
            ),
            final(storage).file_ok(old(self).node),
            final(storage).entry_map() == old(storage).entry_map(),
            final(storage).lists() == old(storage).lists(),
            final(storage).next_node_id() == old(storage).next_node_id(),
            final(storage).next_entry_index() == old(storage).next_entry_index(),
            forall|q: (u64, u32)|
                q.0 != old(self).node ==> (#[trigger] final(storage).chunk_map().contains_key(q)
                    <==> old(storage).chunk_map().contains_key(q)),
            forall|q: (u64, u32)|
                q.0 != old(self).node && old(storage).chunk_map().contains_key(q)
                    ==> #[trigger] final(storage).chunk_map()[q] == old(storage).chunk_map()[q],
    {
        let offset = self.cursor;
        let res = self.write_with_offset(offset, src, storage);
        let written: FileSize = match res {
            Ok(w) => w,
            Err(e) => {
                return Err(e);
            },
        };
        self.cursor = offset + written;
        Ok(written)
    }

    /// Reads at the stream cursor, then advances the cursor by the number
    /// of bytes read.
    pub fn read_with_cursor(&mut self, dst: &mut [u8], storage: &Storage) -> (res: Result<
        FileSize,
        Error,
    >)
        requires
            storage.metas().contains_key(old(self).node),
            storage.metas()[old(self).node].file_type == FileType::RegularFile,
            storage.file_ok(old(self).node),
        ensures
            ({
                let n = read_len(
                    storage.metas()[old(self).node].size as int,
                    old(self).pos() as int,
                    old(dst)@.len() as int,
                );
                &&& res == Result::<FileSize, Error>::Ok(n as FileSize)
                &&& final(dst)@.len() == old(dst)@.len()
                &&& forall|i: int|
                    0 <= i < n ==> #[trigger] final(dst)@[i] == storage.content(old(self).node)[
                        old(self).pos() + i]
                &&& forall|i: int|
                    n <= i < final(dst)@.len() ==> #[trigger] final(dst)@[i] == old(dst)@[i]
                &&& final(self).node == old(self).node
                &&& final(self).stat == old(self).stat
                &&& final(self).pos() == old(self).pos() + n
            }),
    {
        let offset = self.cursor;
        let res = self.read_with_offset(offset, dst, storage);
        let n: FileSize = match res {
            Ok(n) => n,
            Err(e) => {
                return Err(e);
            },
        };
        self.cursor = offset + n;
        Ok(n)
    }

    /// Computes the new cursor from the seek origin and moves it there;
    /// rejects (and leaves the cursor alone) when the target would be
    /// negative or beyond the representable range. Never clamps silently.
    pub fn seek(&mut self, delta: i64, whence: Whence, storage: &Storage) -> (res: Result<
        FileSize,
        Error,
    >)
        requires
            storage.metas().contains_key(old(self).node),
        ensures
            final(self).node == old(self).node,
            final(self).stat == old(self).stat,
            ({
                let base: int = match whence {
                    Whence::Start => 0,
                    Whence::Current => old(self).pos() as int,
                    Whence::End => storage.metas()[old(self).node].size as int,
                };
                let target = base + delta as int;
                if 0 <= target <= u64::MAX {
                    &&& res == Result::<FileSize, Error>::Ok(target as FileSize)
                    &&& final(self).pos() == target
                } else {
                    &&& res == Result::<FileSize, Error>::Err(Error::InvalidOffset)
                    &&& final(self).pos() == old(self).pos()
                }
            }),
    {
        let base: u64 = match whence {
            Whence::Start => 0,
            Whence::Current => self.cursor,
            Whence::End => {
                let m = match storage.get_metadata(self.node) {
                    Ok(m) => m,
                    Err(e) => {
                        return Err(e);
                    },
                };
                m.size
            },
        };
        let target: i128 = base as i128 + delta as i128;
        if target < 0 || target > u64::MAX as i128 {
            return Err(Error::InvalidOffset);
        }
        self.cursor = target as u64;
        Ok(self.cursor)
    }

    /// Resets the file's size to zero and releases all of its content
    /// chunks; content grown back afterwards reads as zero until written.
    pub fn truncate(&self, storage: &mut Storage) -> (res: Result<(), Error>)
        requires
            old(storage).metas().contains_key(self.node),
            old(storage).metas()[self.node].file_type == FileType::RegularFile,
            old(storage).file_ok(self.node),
        ensures
            res == Result::<(), Error>::Ok(()),
            final(storage).metas() == old(storage).metas().insert(
                self.node,
                meta_with_size(old(storage).metas()[self.node], 0),
            ),
            final(storage).content(self.node) == Seq::<u8>::empty(),
            final(storage).file_ok(self.node),
            forall|ci: u32| !#[trigger] final(storage).chunk_map().contains_key((self.node, ci)),
            final(storage).entry_map() == old(storage).entry_map(),
            final(storage).lists() == old(storage).lists(),
            final(storage).next_node_id() == old(storage).next_node_id(),
            final(storage).next_entry_index() == old(storage).next_entry_index(),
            forall|q: (u64, u32)|
                q.0 != self.node ==> (#[trigger] final(storage).chunk_map().contains_key(q)
                    <==> old(storage).chunk_map().contains_key(q)),
            forall|q: (u64, u32)|
                q.0 != self.node && old(storage).chunk_map().contains_key(q)
                    ==> #[trigger] final(storage).chunk_map()[q] == old(storage).chunk_map()[q],
    {
        let m = match storage.get_metadata(self.node) {
            Ok(m) => m,
            Err(e) => {
                return Err(e);
            },
        };
        if m.size > 0 {
            let last: u64 = (m.size - 1) / 4096;
            proof {
                crate::storage::lemma_pos_chunk((m.size - 1) as int);
            }
            let mut ci: u64 = 0;
            while ci <= last
                invariant
                    last < 4294967296,
                    ci <= last + 1,
                    storage.metas() == old(storage).metas(),
                    storage.entry_map() == old(storage).entry_map(),
                    storage.lists() == old(storage).lists(),
                    storage.next_node_id() == old(storage).next_node_id(),
                    storage.next_entry_index() == old(storage).next_entry_index(),
                    forall|c: u32|
                        c < ci ==> !#[trigger] storage.chunk_map().contains_key((self.node, c)),
                    forall|c: u32|
                        c >= ci && old(storage).chunk_map().contains_key((self.node, c))
                            ==> #[trigger] storage.chunk_map().contains_key((self.node, c)),
                    forall|c: u32|
                        #[trigger] storage.chunk_map().contains_key((self.node, c)) ==> c >= ci
                            && old(storage).chunk_map().contains_key((self.node, c)),
                    forall|q: (u64, u32)|
                        q.0 != self.node ==> (#[trigger] storage.chunk_map().contains_key(q)
                            <==> old(storage).chunk_map().contains_key(q)),
                    forall|q: (u64, u32)|
                        q.0 != self.node && old(storage).chunk_map().contains_key(q)
                            ==> #[trigger] storage.chunk_map()[q] == old(storage).chunk_map()[q],
                decreases last + 1 - ci,
            {
                storage.remove_chunk(self.node, ci as u32);
                ci += 1;
            }
            proof {
                let size = old(storage).metas()[self.node].size as int;
                assert forall|c: u32| !#[trigger] storage.chunk_map().contains_key(
                    (self.node, c),
                ) by {
                    if storage.chunk_map().contains_key((self.node, c)) {
                        assert((c as int) * 4096 < size);
                        assert(c as int > last as int);
                        assert((c as int) * 4096 >= (last as int + 1) * 4096) by (nonlinear_arith)
                            requires
                                c as int > last as int,
                        ;
                        assert((last as int) * 4096 + (size - 1) % 4096 == size - 1);
                    }
                }
            }
        }
        let mut m2 = m;
        m2.size = 0;
        storage.put_metadata(self.node, m2);
        proof {
            if old(storage).metas()[self.node].size == 0 {
                let size = old(storage).metas()[self.node].size as int;
                assert forall|c: u32| !#[trigger] storage.chunk_map().contains_key(
                    (self.node, c),
                ) by {
                    if storage.chunk_map().contains_key((self.node, c)) {
                        assert((c as int) * 4096 < size);
                        assert((c as int) * 4096 >= 0) by (nonlinear_arith);
                    }
                }
            }
            assert(storage.content(self.node) =~= Seq::<u8>::empty());
        }
        Ok(())
    }
}

/// The metadata record with its size replaced.
pub open spec fn meta_with_size(m: crate::types::Metadata, size: int) -> crate::types::Metadata {
    crate::types::Metadata { size: size as u64, ..m }
}

/// The larger of two integers.
pub open spec fn spec_max(a: int, b: int) -> int {
    if a >= b {
        a
    } else {
        b
    }
}

} // verus!
