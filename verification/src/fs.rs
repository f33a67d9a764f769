//! The file-system facade: owns the descriptor table and the storage,
//! routes each operation to the right open-handle type, and re-publishes
//! the mutated handle after each call (copy-modify-replace, never in-place
//! mutation through a shared reference).
use crate::dir::{created_entry, removed_entry, Dir};
use crate::error::Error;
use crate::fd::{Fd, FdEntry, FdTable};
use crate::file::{meta_with_size, read_len, spec_max, write_bytes, File};
use crate::storage::{Storage, ROOT_NODE};
use crate::types::{
    DirEntry, DirEntryIndex, FdStat, FileSize, FileType, Metadata, Node, OpenFlags, Whence,
    MAX_FILE_SIZE,
};
use vstd::prelude::*;
use vstd::string::StringSliceAdditionalSpecFns;

verus! {

/// The node an open handle references.
pub open spec fn fd_node(e: FdEntry) -> Node {
    match e {
        FdEntry::File(f) => f.node,
        FdEntry::Dir(d) => d.node,
    }
}

/// The per-descriptor stat an open handle carries.
pub open spec fn fd_stat(e: FdEntry) -> FdStat {
    match e {
        FdEntry::File(f) => f.stat,
        FdEntry::Dir(d) => d.stat,
    }
}

/// Two descriptor tables agree everywhere but possibly at `fd`.
pub open spec fn fds_same_except(m1: Map<u32, FdEntry>, m2: Map<u32, FdEntry>, fd: u32) -> bool {
    &&& forall|f: u32| f != fd ==> (#[trigger] m2.contains_key(f) <==> m1.contains_key(f))
    &&& forall|f: u32| f != fd && m1.contains_key(f) ==> #[trigger] m2[f] == m1[f]
}

/// The public entry point: the descriptor table, the storage, and the
/// root descriptor opened once at construction.
pub struct FileSystem {
    root_fd: Fd,
    fd_table: FdTable,
    storage: Storage,
}

impl FileSystem {
    /// The backing store's state.
    pub closed spec fn store(self) -> Storage {
        self.storage
    }

    /// The open descriptors.
    pub closed spec fn fds(self) -> Map<u32, FdEntry> {
        self.fd_table.entries()
    }

    /// The next descriptor to be handed out.
    pub closed spec fn next_fd_id(self) -> u32 {
        self.fd_table.next_fd_id()
    }

    /// The root descriptor.
    pub closed spec fn root_fd_spec(self) -> Fd {
        self.root_fd
    }

    /// Whether the descriptor is open.
    pub open spec fn is_open(self, fd: u32) -> bool {
        self.fds().contains_key(fd)
    }

    /// Whether the descriptor is open and holds a file handle.
    pub open spec fn is_file_fd(self, fd: u32) -> bool {
        self.is_open(fd) && self.fds()[fd] is File
    }

    /// Whether the descriptor is open and holds a directory handle.
    pub open spec fn is_dir_fd(self, fd: u32) -> bool {
        self.is_open(fd) && self.fds()[fd] is Dir
    }

    /// The node an open descriptor references.
    pub open spec fn node_of(self, fd: u32) -> Node {
        fd_node(self.fds()[fd])
    }

    /// The stream cursor of an open file descriptor.
    pub open spec fn cursor_of(self, fd: u32) -> FileSize {
        self.fds()[fd]->File_0.pos()
    }

    /// The per-descriptor stat of an open descriptor.
    pub open spec fn stat_of(self, fd: u32) -> FdStat {
        fd_stat(self.fds()[fd])
    }

    /// Whether the descriptor references a node that still exists.
    pub open spec fn is_live(self, fd: u32) -> bool {
        self.is_open(fd) && self.store().metas().contains_key(self.node_of(fd))
    }

    /// Well-formedness: the store's invariants hold, descriptors lie below
    /// the allocation watermark, and every handle whose node still exists
    /// is of the node's kind. A handle may outlive its node (the node was
    /// removed through another descriptor); such a handle only fails.
    pub open spec fn wf(self) -> bool {
        &&& self.store().store_ok()
        &&& forall|f: u32| #[trigger] self.fds().contains_key(f) ==> f < self.next_fd_id()
        &&& forall|f: u32|
            #[trigger] self.fds().contains_key(f) ==> fd_node(self.fds()[f])
                < self.store().next_node_id()
        &&& forall|f: u32|
            #[trigger] self.fds().contains_key(f) && self.store().metas().contains_key(
                fd_node(self.fds()[f]),
            ) ==> (self.fds()[f] is File ==> self.store().metas()[fd_node(
                self.fds()[f],
            )].file_type == FileType::RegularFile) && (self.fds()[f] is Dir
                ==> self.store().metas()[fd_node(self.fds()[f])].file_type == FileType::Directory)
        &&& self.root_fd_spec() < self.next_fd_id()
    }

    /// Whether a cursor write of `len` bytes stays below the addressable
    /// bound; trivially true of non-file descriptors.
    pub open spec fn write_fits(self, fd: u32, len: nat) -> bool {
        self.is_file_fd(fd) ==> self.cursor_of(fd) + len <= MAX_FILE_SIZE
    }

    /// Builds a file system over a store, opening the store's root node
    /// as the root descriptor.
    pub fn new(storage: Storage) -> (res: Result<FileSystem, Error>)
        requires
            storage.store_ok(),
        ensures
            match res {
                Ok(fs) => {
                    &&& fs.wf()
                    &&& fs.store() == storage
                    &&& fs.root_fd_spec() == 0
                    &&& fs.next_fd_id() == 1
                    &&& fs.fds() == Map::<u32, FdEntry>::empty().insert(
                        0u32,
                        FdEntry::Dir(
                            (Dir {
                                node: ROOT_NODE,
                                stat: (FdStat { flags: 0, rights_base: 0, rights_inheriting: 0 }),
                            }),
                        ),
                    )
                },
                Err(_) => false,
            },
    {
        let mut fd_table = FdTable::new();
        let root_node = storage.root_node();
        let root_entry = match Dir::new(root_node, FdStat::default(), &storage) {
            Ok(d) => d,
            Err(e) => {
                return Err(e);
            },
        };
        let root_fd = fd_table.open(FdEntry::Dir(root_entry));
        Ok(FileSystem { root_fd, fd_table, storage })
    }

    /// The root descriptor; stable for the file system's lifetime.
    pub fn root_fd(&self) -> (fd: Fd)
        ensures
            fd == self.root_fd_spec(),
    {
        self.root_fd
    }

    /// The path of the root directory.
    pub fn root_path(&self) -> (p: &str)
        ensures
            p@ == "/"@,
    {
        "/"
    }

    /// The node an open descriptor references, whatever its kind.
    fn get_node(&self, fd: Fd) -> (res: Result<Node, Error>)
        ensures
            match res {
                Ok(n) => self.is_open(fd) && n == self.node_of(fd),
                Err(e) => e == Error::NotFound && !self.is_open(fd),
            },
    {
        match self.fd_table.get(fd) {
            Some(FdEntry::File(file)) => Ok(file.node),
            Some(FdEntry::Dir(dir)) => Ok(dir.node),
            None => Err(Error::NotFound),
        }
    }

    /// The file handle of an open file descriptor, by value.
    fn get_file(&self, fd: Fd) -> (res: Result<File, Error>)
        ensures
            match res {
                Ok(f) => self.is_file_fd(fd) && FdEntry::File(f) == self.fds()[fd],
                Err(e) => (e == Error::NotFound && !self.is_open(fd)) || (e
                    == Error::InvalidFileType && self.is_dir_fd(fd)),
            },
    {
        match self.fd_table.get(fd) {
            Some(FdEntry::File(file)) => Ok(file),
            Some(FdEntry::Dir(_)) => Err(Error::InvalidFileType),
            None => Err(Error::NotFound),
        }
    }

    /// Re-publishes a mutated file handle.
    fn put_file(&mut self, fd: Fd, file: File)
        ensures
            final(self).fds() == (if old(self).is_open(fd) {
                old(self).fds().insert(fd, FdEntry::File(file))
            } else {
                old(self).fds()
            }),
            final(self).store() == old(self).store(),
            final(self).next_fd_id() == old(self).next_fd_id(),
            final(self).root_fd_spec() == old(self).root_fd_spec(),
    {
        self.fd_table.update(fd, FdEntry::File(file))
    }

    /// The directory handle of an open directory descriptor, by value.
    fn get_dir(&self, fd: Fd) -> (res: Result<Dir, Error>)
        ensures
            match res {
                Ok(d) => self.is_dir_fd(fd) && FdEntry::Dir(d) == self.fds()[fd],
                Err(e) => (e == Error::NotFound && !self.is_open(fd)) || (e
                    == Error::InvalidFileType && self.is_file_fd(fd)),
            },
    {
        match self.fd_table.get(fd) {
            Some(FdEntry::Dir(dir)) => Ok(dir),
            Some(FdEntry::File(_)) => Err(Error::InvalidFileType),
            None => Err(Error::NotFound),
        }
    }

    /// Re-publishes a mutated directory handle.
    fn put_dir(&mut self, fd: Fd, dir: Dir)
        ensures
            final(self).fds() == (if old(self).is_open(fd) {
                old(self).fds().insert(fd, FdEntry::Dir(dir))
            } else {
                old(self).fds()
            }),
            final(self).store() == old(self).store(),
            final(self).next_fd_id() == old(self).next_fd_id(),
            final(self).root_fd_spec() == old(self).root_fd_spec(),
    {
        self.fd_table.update(fd, FdEntry::Dir(dir))
    }

    /// Reads at the descriptor's cursor into `dst`, stopping at end of
    /// file, and advances the cursor by the bytes read.
    pub fn read(&mut self, fd: Fd, dst: &mut [u8]) -> (res: Result<FileSize, Error>)
        requires
            old(self).wf(),
        ensures
            final(self).wf(),
            final(self).store() == old(self).store(),
            final(self).next_fd_id() == old(self).next_fd_id(),
            final(self).root_fd_spec() == old(self).root_fd_spec(),
            fds_same_except(old(self).fds(), final(self).fds(), fd),
            match res {
                Ok(n) => ({
                    let node = old(self).node_of(fd);
                    let cur = old(self).cursor_of(fd);
                    let nn = read_len(
                        old(self).store().metas()[node].size as int,
                        cur as int,
                        old(dst)@.len() as int,
                    );
                    &&& old(self).is_file_fd(fd)
                    &&& old(self).store().metas().contains_key(node)
                    &&& n == nn as FileSize
                    &&& final(dst)@.len() == old(dst)@.len()
                    &&& forall|i: int|
                        0 <= i < nn ==> #[trigger] final(dst)@[i] == old(self).store().content(
                            node,
                        )[cur + i]
                    &&& forall|i: int|
                        nn <= i < final(dst)@.len() ==> #[trigger] final(dst)@[i] == old(dst)@[i]
                    &&& final(self).is_file_fd(fd)
                    &&& final(self).node_of(fd) == node
                    &&& final(self).stat_of(fd) == old(self).stat_of(fd)
                    &&& final(self).cursor_of(fd) == cur + nn
                }),
                Err(e) => {
                    &&& final(dst)@ == old(dst)@
                    &&& final(self).fds() == old(self).fds()
                    &&& (e == Error::NotFound && (!old(self).is_open(fd) || (old(self).is_file_fd(
                        fd,
                    ) && !old(self).is_live(fd)))) || (e == Error::InvalidFileType && old(self).is_dir_fd(fd))
                },
            },
    {
        let mut file = match self.get_file(fd) {
            Ok(f) => f,
            Err(e) => {
                return Err(e);
            },
        };
        match self.storage.get_metadata(file.node) {
            Ok(_) => {},
            Err(_) => {
                return Err(Error::NotFound);
            },
        }
        proof {
            assert(self.storage.file_ok(file.node));
        }
        let r = match file.read_with_cursor(dst, &self.storage) {
            Ok(r) => r,
            Err(e) => {
                return Err(e);
            },
        };
        self.put_file(fd, file);
        Ok(r)
    }

    /// Writes all of `src` at the descriptor's cursor, growing the file
    /// where needed, and advances the cursor past the written bytes.
    pub fn write(&mut self, fd: Fd, src: &[u8]) -> (res: Result<FileSize, Error>)
        requires
            old(self).wf(),
            old(self).write_fits(fd, src@.len()),
        ensures
            final(self).wf(),
            final(self).next_fd_id() == old(self).next_fd_id(),
            final(self).root_fd_spec() == old(self).root_fd_spec(),
            fds_same_except(old(self).fds(), final(self).fds(), fd),
            match res {
                Ok(n) => ({
                    let node = old(self).node_of(fd);
                    let cur = old(self).cursor_of(fd);
                    let s1 = old(self).store();
                    let s2 = final(self).store();
                    &&& old(self).is_file_fd(fd)
                    &&& s1.metas().contains_key(node)
                    &&& n == src@.len() as FileSize
                    &&& s2.metas() == s1.metas().insert(
                        node,
                        meta_with_size(
                            s1.metas()[node],
                            spec_max(s1.metas()[node].size as int, cur + src@.len()),
                        ),
                    )
                    &&& s2.content(node) == write_bytes(s1.content(node), cur as int, src@)
                    &&& s2.entry_map() == s1.entry_map()
                    &&& s2.lists() == s1.lists()
                    &&& s2.next_node_id() == s1.next_node_id()
                    &&& s2.next_entry_index() == s1.next_entry_index()
                    &&& forall|n2: u64|
                        n2 != node && s1.metas().contains_key(n2) ==> #[trigger] s2.content(n2)
                            == s1.content(n2)
                    &&& final(self).is_file_fd(fd)
                    &&& final(self).node_of(fd) == node
                    &&& final(self).stat_of(fd) == old(self).stat_of(fd)
                    &&& final(self).cursor_of(fd) == cur + src@.len()
                }),
                Err(e) => {
                    &&& final(self).fds() == old(self).fds()
                    &&& final(self).store() == old(self).store()
                    &&& (e == Error::NotFound && (!old(self).is_open(fd) || (old(self).is_file_fd(
                        fd,
                    ) && !old(self).is_live(fd)))) || (e == Error::InvalidFileType && old(self).is_dir_fd(fd))
                },
            },
    {
        let mut file = match self.get_file(fd) {
            Ok(f) => f,
            Err(e) => {
                return Err(e);
            },
        };
        match self.storage.get_metadata(file.node) {
            Ok(_) => {},
            Err(_) => {
                return Err(Error::NotFound);
            },
        }
        proof {
            assert(self.storage.file_ok(file.node));
        }
        let ghost s1 = self.storage;
        let r = match file.write_with_cursor(src, &mut self.storage) {
            Ok(r) => r,
            Err(e) => {
                return Err(e);
            },
        };
        proof {
            let node = file.node;
            let s2 = self.storage;
            crate::storage::lemma_store_ok_after_file_change(
                s1,
                s2,
                node,
                s2.metas()[node],
            );
            assert forall|n2: u64| n2 != node && s1.metas().contains_key(n2) implies #[trigger] s2.content(
                n2,
            ) == s1.content(n2) by {
                if s1.metas()[n2].file_type == FileType::RegularFile {
                    assert(s1.file_ok(n2));
                    crate::storage::lemma_file_ok_preserved(s1, s2, n2);
                }
                assert(s2.content(n2) =~= s1.content(n2)) by {
                    assert forall|i: int| 0 <= i < s2.metas()[n2].size implies s2.byte_at(n2, i)
                        == s1.byte_at(n2, i) by {
                        let ci = (i / 4096) as u32;
                        assert(s2.chunk_map().contains_key((n2, ci))
                            <==> s1.chunk_map().contains_key((n2, ci)));
                    }
                }
            }
        }
        self.put_file(fd, file);
        Ok(r)
    }

    /// Moves the descriptor's cursor per the seek origin; fails without
    /// clamping when the target offset is out of range.
    pub fn seek(&mut self, fd: Fd, delta: i64, whence: Whence) -> (res: Result<FileSize, Error>)
        requires
            old(self).wf(),
        ensures
            final(self).wf(),
            final(self).store() == old(self).store(),
            final(self).next_fd_id() == old(self).next_fd_id(),
            final(self).root_fd_spec() == old(self).root_fd_spec(),
            fds_same_except(old(self).fds(), final(self).fds(), fd),
            match res {
                Ok(p) => ({
                    let node = old(self).node_of(fd);
                    let base: int = match whence {
                        Whence::Start => 0,
                        Whence::Current => old(self).cursor_of(fd) as int,
                        Whence::End => old(self).store().metas()[node].size as int,
                    };
                    let target = base + delta as int;
                    &&& old(self).is_file_fd(fd)
                    &&& old(self).store().metas().contains_key(node)
                    &&& 0 <= target <= u64::MAX
                    &&& p == target as FileSize
                    &&& final(self).is_file_fd(fd)
                    &&& final(self).node_of(fd) == node
                    &&& final(self).stat_of(fd) == old(self).stat_of(fd)
                    &&& final(self).cursor_of(fd) == target
                }),
                Err(e) => ({
                    let node = old(self).node_of(fd);
                    let base: int = match whence {
                        Whence::Start => 0,
                        Whence::Current => old(self).cursor_of(fd) as int,
                        Whence::End => old(self).store().metas()[node].size as int,
                    };
                    let target = base + delta as int;
                    &&& final(self).fds() == old(self).fds()
                    &&& (e == Error::NotFound && (!old(self).is_open(fd) || (old(self).is_file_fd(
                        fd,
                    ) && !old(self).is_live(fd)))) || (e == Error::InvalidFileType && old(
                        self,
                    ).is_dir_fd(fd)) || (e == Error::InvalidOffset && old(self).is_file_fd(fd)
                        && old(self).is_live(fd) && !(0 <= target <= u64::MAX))
                }),
            },
    {
        let mut file = match self.get_file(fd) {
            Ok(f) => f,
            Err(e) => {
                return Err(e);
            },
        };
        match self.storage.get_metadata(file.node) {
            Ok(_) => {},
            Err(_) => {
                return Err(Error::NotFound);
            },
        }
        let pos = match file.seek(delta, whence, &self.storage) {
            Ok(p) => p,
            Err(e) => {
                return Err(e);
            },
        };
        self.put_file(fd, file);
        Ok(pos)
    }

    /// The descriptor's cursor; never mutates state.
    pub fn tell(&mut self, fd: Fd) -> (res: Result<FileSize, Error>)
        ensures
            *final(self) == *old(self),
            match res {
                Ok(p) => old(self).is_file_fd(fd) && p == old(self).cursor_of(fd),
                Err(e) => (e == Error::NotFound && !old(self).is_open(fd)) || (e
                    == Error::InvalidFileType && old(self).is_dir_fd(fd)),
            },
    {
        let file = match self.get_file(fd) {
            Ok(f) => f,
            Err(e) => {
                return Err(e);
            },
        };
        let pos = file.tell();
        Ok(pos)
    }

    /// Closes a descriptor. Other descriptors, and the nodes they
    /// reference, are untouched; the number is never handed out again.
    pub fn close(&mut self, fd: Fd) -> (res: Result<(), Error>)
        requires
            old(self).wf(),
        ensures
            final(self).wf(),
            final(self).store() == old(self).store(),
            final(self).next_fd_id() == old(self).next_fd_id(),
            final(self).root_fd_spec() == old(self).root_fd_spec(),
            match res {
                Ok(()) => old(self).is_open(fd) && final(self).fds() == old(self).fds().remove(fd),
                Err(e) => e == Error::NotFound && !old(self).is_open(fd) && final(self).fds()
                    == old(self).fds(),
            },
    {
        match self.fd_table.close(fd) {
            Ok(()) => Ok(()),
            Err(e) => Err(e),
        }
    }
}

impl FileSystem {
    /// The metadata of the node an open descriptor references.
    pub fn metadata(&self, fd: Fd) -> (res: Result<Metadata, Error>)
        ensures
            match res {
                Ok(m) => self.is_open(fd) && self.store().metas().contains_key(self.node_of(fd))
                    && m == self.store().metas()[self.node_of(fd)],
                Err(e) => e == Error::NotFound && (!self.is_open(fd) || !self.is_live(fd)),
            },
    {
        let node = match self.get_node(fd) {
            Ok(n) => n,
            Err(e) => {
                return Err(e);
            },
        };
        self.storage.get_metadata(node)
    }

    /// The metadata of a node, addressed directly.
    pub fn metadata_from_node(&self, node: Node) -> (res: Result<Metadata, Error>)
        ensures
            match res {
                Ok(m) => self.store().metas().contains_key(node) && m == self.store().metas()[node],
                Err(e) => e == Error::NotFound && !self.store().metas().contains_key(node),
            },
    {
        self.storage.get_metadata(node)
    }

    /// Replaces the node's metadata record. The structural fields — node
    /// id, type, size, list pointers, link count — must be kept; only the
    /// times are free, per the type-immutability invariant.
    pub fn set_metadata(&mut self, fd: Fd, metadata: Metadata) -> (res: Result<(), Error>)
        requires
            old(self).wf(),
            old(self).is_live(fd) ==> metadata == (Metadata {
                times: metadata.times,
                ..old(self).store().metas()[old(self).node_of(fd)]
            }),
        ensures
            final(self).wf(),
            final(self).fds() == old(self).fds(),
            final(self).next_fd_id() == old(self).next_fd_id(),
            final(self).root_fd_spec() == old(self).root_fd_spec(),
            match res {
                Ok(()) => old(self).is_live(fd) && final(self).store().metas() == old(self).store().metas().insert(old(self).node_of(fd), metadata) && final(self).store().entry_map() == old(self).store().entry_map() && final(self).store().chunk_map() == old(self).store().chunk_map() && final(self).store().lists() == old(self).store().lists() && final(self).store().next_node_id() == old(self).store().next_node_id() && final(self).store().next_entry_index() == old(self).store().next_entry_index(),
                Err(e) => e == Error::NotFound && (!old(self).is_open(fd) || !old(self).is_live(
                    fd,
                )) && final(self).store() == old(self).store(),
            },
    {
        let node = match self.get_node(fd) {
            Ok(n) => n,
            Err(e) => {
                return Err(e);
            },
        };
        match self.storage.get_metadata(node) {
            Ok(_) => {},
            Err(e) => {
                return Err(e);
            },
        }
        let ghost s1 = self.storage;
        self.storage.put_metadata(node, metadata);
        proof {
            lemma_store_ok_after_times_change(s1, self.storage, node, metadata);
        }
        Ok(())
    }

    /// Sets the node's accessed time, leaving everything else alone.
    pub fn set_accessed_time(&mut self, fd: Fd, time: u64) -> (res: Result<(), Error>)
        requires
            old(self).wf(),
        ensures
            final(self).wf(),
            final(self).fds() == old(self).fds(),
            final(self).next_fd_id() == old(self).next_fd_id(),
            final(self).root_fd_spec() == old(self).root_fd_spec(),
            match res {
                Ok(()) => ({
                    let node = old(self).node_of(fd);
                    let m = old(self).store().metas()[node];
                    &&& old(self).is_live(fd)
                    &&& final(self).store().metas() == old(self).store().metas().insert(
                        node,
                        (Metadata {
                            times: (crate::types::Times { accessed: time, ..m.times }),
                            ..m
                        }),
                    )
                    &&& final(self).store().entry_map() == old(self).store().entry_map()
                    &&& final(self).store().chunk_map() == old(self).store().chunk_map()
                    &&& final(self).store().lists() == old(self).store().lists()
                }),
                Err(e) => e == Error::NotFound && (!old(self).is_open(fd) || !old(self).is_live(
                    fd,
                )) && final(self).store() == old(self).store(),
            },
    {
        let node = match self.get_node(fd) {
            Ok(n) => n,
            Err(e) => {
                return Err(e);
            },
        };
        let mut metadata = match self.storage.get_metadata(node) {
            Ok(m) => m,
            Err(e) => {
                return Err(e);
            },
        };
        metadata.times.accessed = time;
        let ghost s1 = self.storage;
        self.storage.put_metadata(node, metadata);
        proof {
            lemma_store_ok_after_times_change(s1, self.storage, node, metadata);
        }
        Ok(())
    }

    /// Sets the node's modified time, leaving everything else alone.
    pub fn set_modified_time(&mut self, fd: Fd, time: u64) -> (res: Result<(), Error>)
        requires
            old(self).wf(),
        ensures
            final(self).wf(),
            final(self).fds() == old(self).fds(),
            final(self).next_fd_id() == old(self).next_fd_id(),
            final(self).root_fd_spec() == old(self).root_fd_spec(),
            match res {
                Ok(()) => ({
                    let node = old(self).node_of(fd);
                    let m = old(self).store().metas()[node];
                    &&& old(self).is_live(fd)
                    &&& final(self).store().metas() == old(self).store().metas().insert(
                        node,
                        (Metadata {
                            times: (crate::types::Times { modified: time, ..m.times }),
                            ..m
                        }),
                    )
                    &&& final(self).store().entry_map() == old(self).store().entry_map()
                    &&& final(self).store().chunk_map() == old(self).store().chunk_map()
                    &&& final(self).store().lists() == old(self).store().lists()
                }),
                Err(e) => e == Error::NotFound && (!old(self).is_open(fd) || !old(self).is_live(
                    fd,
                )) && final(self).store() == old(self).store(),
            },
    {
        let node = match self.get_node(fd) {
            Ok(n) => n,
            Err(e) => {
                return Err(e);
            },
        };
        let mut metadata = match self.storage.get_metadata(node) {
            Ok(m) => m,
            Err(e) => {
                return Err(e);
            },
        };
        metadata.times.modified = time;
        let ghost s1 = self.storage;
        self.storage.put_metadata(node, metadata);
        proof {
            lemma_store_ok_after_times_change(s1, self.storage, node, metadata);
        }
        Ok(())
    }

    /// The kind of the open handle and its per-descriptor stat — the
    /// descriptor's own attributes, not the node's metadata.
    pub fn get_stat(&self, fd: Fd) -> (res: Result<(FileType, FdStat), Error>)
        ensures
            match res {
                Ok(t) => self.is_open(fd) && t.1 == self.stat_of(fd) && t.0 == (if self.fds()[fd]
                    is File {
                    FileType::RegularFile
                } else {
                    FileType::Directory
                }),
                Err(e) => e == Error::NotFound && !self.is_open(fd),
            },
    {
        match self.fd_table.get(fd) {
            None => Err(Error::NotFound),
            Some(FdEntry::File(file)) => Ok((FileType::RegularFile, file.stat)),
            Some(FdEntry::Dir(dir)) => Ok((FileType::Directory, dir.stat)),
        }
    }

    /// Replaces the descriptor's own stat; the node and every other
    /// descriptor — including others open on the same node — are
    /// untouched.
    pub fn set_stat(&mut self, fd: Fd, stat: FdStat) -> (res: Result<(), Error>)
        requires
            old(self).wf(),
        ensures
            final(self).wf(),
            final(self).store() == old(self).store(),
            final(self).next_fd_id() == old(self).next_fd_id(),
            final(self).root_fd_spec() == old(self).root_fd_spec(),
            fds_same_except(old(self).fds(), final(self).fds(), fd),
            match res {
                Ok(()) => {
                    &&& old(self).is_open(fd)
                    &&& final(self).is_open(fd)
                    &&& final(self).fds()[fd] is File == old(self).fds()[fd] is File
                    &&& final(self).node_of(fd) == old(self).node_of(fd)
                    &&& final(self).stat_of(fd) == stat
                    &&& (old(self).is_file_fd(fd) ==> final(self).cursor_of(fd) == old(self).cursor_of(fd))
                },
                Err(e) => e == Error::NotFound && !old(self).is_open(fd) && final(self).fds()
                    == old(self).fds(),
            },
    {
        match self.fd_table.get(fd) {
            Some(FdEntry::File(file)) => {
                let mut file = file;
                file.stat = stat;
                self.put_file(fd, file);
                Ok(())
            },
            Some(FdEntry::Dir(dir)) => {
                let mut dir = dir;
                dir.stat = stat;
                self.put_dir(fd, dir);
                Ok(())
            },
            None => Err(Error::NotFound),
        }
    }

    /// Direct, random-access read of one of the directory's entry records
    /// by its index.
    pub fn get_direntry(&self, fd: Fd, index: DirEntryIndex) -> (res: Result<DirEntry, Error>)
        ensures
            match res {
                Ok(e) => self.is_dir_fd(fd) && self.store().entry_map().contains_key(
                    (self.node_of(fd), index),
                ) && e == self.store().entry_map()[(self.node_of(fd), index)],
                Err(e) => (e == Error::NotFound && (!self.is_open(fd) || (self.is_dir_fd(fd)
                    && !self.store().entry_map().contains_key((self.node_of(fd), index))))) || (e
                    == Error::InvalidFileType && self.is_file_fd(fd)),
            },
    {
        let dir = match self.get_dir(fd) {
            Ok(d) => d,
            Err(e) => {
                return Err(e);
            },
        };
        dir.get_entry(index, &self.storage)
    }

    /// Resolves a single name under the directory descriptor and returns
    /// the bound node's metadata, without opening it.
    pub fn open_metadata(&self, parent: Fd, path: &str) -> (res: Result<Metadata, Error>)
        requires
            self.wf(),
        ensures
            match res {
                Ok(m) => ({
                    let d = self.node_of(parent);
                    &&& self.is_dir_fd(parent) && self.is_live(parent)
                    &&& self.store().dir_has_name(d, path.spec_bytes())
                    &&& m == self.store().metas()[self.store().dir_lookup(d, path.spec_bytes())]
                }),
                Err(e) => (e == Error::NotFound && (!self.is_open(parent) || !self.is_live(parent)
                    || !self.store().dir_has_name(self.node_of(parent), path.spec_bytes()))) || (e
                    == Error::InvalidFileType && self.is_file_fd(parent)),
            },
    {
        let dir = match self.get_dir(parent) {
            Ok(d) => d,
            Err(e) => {
                return Err(e);
            },
        };
        match self.storage.get_metadata(dir.node) {
            Ok(_) => {},
            Err(_) => {
                return Err(Error::NotFound);
            },
        }
        proof {
            assert(self.storage.dir_ok(dir.node));
        }
        let node = match dir.find_node(path, &self.storage) {
            Ok(n) => n,
            Err(e) => {
                return Err(e);
            },
        };
        proof {
            lemma_lookup_exists(self.storage, dir.node, path.spec_bytes());
        }
        self.storage.get_metadata(node)
    }
}

/// The whole store's well-formedness survives a metadata replacement that
/// keeps every structural field, touching the times alone.
proof fn lemma_store_ok_after_times_change(s1: Storage, s2: Storage, node: u64, m2: Metadata)
    requires
        s1.store_ok(),
        s1.metas().contains_key(node),
        m2 == (Metadata { times: m2.times, ..s1.metas()[node] }),
        s2.metas() == s1.metas().insert(node, m2),
        s2.entry_map() == s1.entry_map(),
        s2.chunk_map() == s1.chunk_map(),
        s2.lists() == s1.lists(),
        s2.next_node_id() == s1.next_node_id(),
        s2.next_entry_index() == s1.next_entry_index(),
    ensures
        s2.store_ok(),
{
    assert forall|n2: u64|
        s2.metas().contains_key(n2) && s2.metas()[n2].file_type == FileType::Directory
            implies #[trigger] s2.dir_ok(n2) by {
        assert(s1.metas().contains_key(n2));
        assert(s1.dir_ok(n2));
        crate::storage::lemma_dir_ok_preserved(s1, s2, n2);
    }
    assert forall|n2: u64|
        s2.metas().contains_key(n2) && s2.metas()[n2].file_type == FileType::RegularFile
            implies #[trigger] s2.file_ok(n2) by {
        assert(s1.metas().contains_key(n2));
        assert(s1.file_ok(n2));
        crate::storage::lemma_file_ok_preserved(s1, s2, n2);
    }
    assert forall|q1: (u64, u32), q2: (u64, u32)|
        #[trigger] s2.entry_map().contains_key(q1) && #[trigger] s2.entry_map().contains_key(q2)
            && q1 != q2 implies s2.entry_map()[q1].node != s2.entry_map()[q2].node by {
        assert(s1.entry_map().contains_key(q1) && s1.entry_map().contains_key(q2));
    }
}

/// Where a directory binds a name, the bound node exists in the store.
pub proof fn lemma_lookup_exists(s: Storage, d: u64, name: Seq<u8>)
    requires
        s.dir_ok(d),
        s.dir_has_name(d, name),
    ensures
        s.metas().contains_key(s.dir_lookup(d, name)),
        s.dir_lookup(d, name) != d,
{
    let k = s.dir_name_index(d, name);
    assert(0 <= k < s.lists()[d].len() && s.entry_map()[(d, s.lists()[d][k])].name@ == name);
}

impl FileSystem {
    /// Opens a node as a fresh descriptor. EXCLUSIVE is defined only to
    /// reject; DIRECTORY demands a directory; TRUNCATE empties a regular
    /// file on open. Symbolic links are not supported.
    pub fn open(&mut self, node: Node, stat: FdStat, flags: OpenFlags) -> (res: Result<Fd, Error>)
        requires
            old(self).wf(),
            old(self).next_fd_id() < u32::MAX,
        ensures
            final(self).wf(),
            final(self).root_fd_spec() == old(self).root_fd_spec(),
            match res {
                Ok(fd) => ({
                    let m = old(self).store().metas()[node];
                    &&& !flags.exclusive
                    &&& old(self).store().metas().contains_key(node)
                    &&& fd == old(self).next_fd_id()
                    &&& final(self).next_fd_id() == old(self).next_fd_id() + 1
                    &&& if m.file_type == FileType::Directory {
                        &&& final(self).fds() == old(self).fds().insert(
                            fd,
                            FdEntry::Dir((Dir { node, stat })),
                        )
                        &&& final(self).store() == old(self).store()
                    } else {
                        &&& m.file_type == FileType::RegularFile
                        &&& !flags.directory
                        &&& final(self).fds() == old(self).fds().insert(
                            fd,
                            FdEntry::File((File { node, stat, cursor: 0 })),
                        )
                        &&& if flags.truncate {
                            &&& final(self).store().metas() == old(self).store().metas().insert(
                                node,
                                meta_with_size(m, 0),
                            )
                            &&& final(self).store().content(node) == Seq::<u8>::empty()
                            &&& final(self).store().entry_map() == old(self).store().entry_map()
                            &&& final(self).store().lists() == old(self).store().lists()
                            &&& final(self).store().next_node_id() == old(self).store().next_node_id()
                            &&& final(self).store().next_entry_index() == old(self).store().next_entry_index()
                            &&& forall|q: (u64, u32)|
                                q.0 != node ==> (#[trigger] final(self).store().chunk_map().contains_key(q)
                                    <==> old(self).store().chunk_map().contains_key(q))
                            &&& forall|q: (u64, u32)|
                                q.0 != node && old(self).store().chunk_map().contains_key(q)
                                    ==> #[trigger] final(self).store().chunk_map()[q] == old(self).store().chunk_map()[q]
                        } else {
                            final(self).store() == old(self).store()
                        }
                    }
                }),
                Err(e) => {
                    &&& final(self).fds() == old(self).fds()
                    &&& final(self).store() == old(self).store()
                    &&& final(self).next_fd_id() == old(self).next_fd_id()
                    &&& (e == Error::FileAlreadyExists && flags.exclusive) || (e == Error::NotFound
                        && !flags.exclusive && !old(self).store().metas().contains_key(node)) || (e
                        == Error::InvalidFileType && !flags.exclusive && old(self).store().metas().contains_key(node) && old(self).store().metas()[node].file_type
                        == FileType::RegularFile && flags.directory) || (e == Error::Unsupported
                        && !flags.exclusive && old(self).store().metas().contains_key(node) && old(self).store().metas()[node].file_type == FileType::SymbolicLink)
                },
            },
    {
        if flags.exclusive {
            return Err(Error::FileAlreadyExists);
        }
        let metadata = match self.storage.get_metadata(node) {
            Ok(m) => m,
            Err(e) => {
                return Err(e);
            },
        };
        match metadata.file_type {
            FileType::Directory => {
                let dir = match Dir::new(node, stat, &self.storage) {
                    Ok(d) => d,
                    Err(e) => {
                        return Err(e);
                    },
                };
                let fd = self.fd_table.open(FdEntry::Dir(dir));
                Ok(fd)
            },
            FileType::RegularFile => {
                if flags.directory {
                    return Err(Error::InvalidFileType);
                }
                let file = match File::new(node, stat, &self.storage) {
                    Ok(f) => f,
                    Err(e) => {
                        return Err(e);
                    },
                };
                if flags.truncate {
                    proof {
                        assert(self.storage.file_ok(node));
                    }
                    let ghost s1 = self.storage;
                    match file.truncate(&mut self.storage) {
                        Ok(()) => {},
                        Err(e) => {
                            return Err(e);
                        },
                    }
                    proof {
                        crate::storage::lemma_store_ok_after_file_change(
                            s1,
                            self.storage,
                            node,
                            meta_with_size(s1.metas()[node], 0),
                        );
                    }
                }
                let fd = self.fd_table.open(FdEntry::File(file));
                Ok(fd)
            },
            FileType::SymbolicLink => Err(Error::Unsupported),
        }
    }

    /// Resolves `path` as a direct child of `parent`. A bound name is
    /// opened subject to `flags`; an unbound one is created as a regular
    /// file when CREATE is set (and DIRECTORY is not), and rejected
    /// otherwise.
    pub fn open_or_create(
        &mut self,
        parent: Fd,
        path: &str,
        stat: FdStat,
        flags: OpenFlags,
    ) -> (res: Result<Fd, Error>)
        requires
            old(self).wf(),
            old(self).next_fd_id() < u32::MAX,
            old(self).store().next_node_id() < u64::MAX,
            old(self).store().next_entry_index() < u32::MAX,
        ensures
            final(self).wf(),
            final(self).root_fd_spec() == old(self).root_fd_spec(),
            old(self).is_dir_fd(parent) && old(self).is_live(parent) && old(
                self,
            ).store().dir_has_name(old(self).node_of(parent), path.spec_bytes()) && !flags.exclusive
                && (old(self).store().metas()[old(self).store().dir_lookup(
                old(self).node_of(parent),
                path.spec_bytes(),
            )].file_type == FileType::RegularFile ==> !flags.directory) ==> res matches Ok(_),
            old(self).is_dir_fd(parent) && old(self).is_live(parent) && !old(
                self,
            ).store().dir_has_name(old(self).node_of(parent), path.spec_bytes()) && flags.create
                && !flags.directory && path.spec_bytes().len() <= 255 ==> res matches Ok(_),
            match res {
                Ok(fd) => ({
                    let d = old(self).node_of(parent);
                    let nb = path.spec_bytes();
                    &&& old(self).is_dir_fd(parent) && old(self).is_live(parent)
                    &&& fd == old(self).next_fd_id()
                    &&& final(self).next_fd_id() == old(self).next_fd_id() + 1
                    &&& if old(self).store().dir_has_name(d, nb) {
                        ({
                            let node = old(self).store().dir_lookup(d, nb);
                            let m = old(self).store().metas()[node];
                            &&& !flags.exclusive
                            &&& if m.file_type == FileType::Directory {
                                final(self).fds() == old(self).fds().insert(
                                    fd,
                                    FdEntry::Dir((Dir { node, stat })),
                                ) && final(self).store() == old(self).store()
                            } else {
                                m.file_type == FileType::RegularFile && !flags.directory && final(self).fds() == old(self).fds().insert(
                                    fd,
                                    FdEntry::File((File { node, stat, cursor: 0 })),
                                ) && (!flags.truncate ==> final(self).store() == old(self).store())
                                    && (flags.truncate ==> final(self).store().content(node)
                                    == Seq::<u8>::empty() && final(self).store().metas() == old(self).store().metas().insert(node, meta_with_size(m, 0))
                                    && final(self).store().entry_map() == old(self).store().entry_map()
                                    && final(self).store().lists() == old(self).store().lists()
                                    && final(self).store().next_node_id() == old(self).store().next_node_id()
                                    && final(self).store().next_entry_index() == old(self).store().next_entry_index()
                                    && (forall|q: (u64, u32)|
                                        q.0 != node ==> (#[trigger] final(self).store().chunk_map().contains_key(q)
                                            <==> old(self).store().chunk_map().contains_key(q)))
                                    && (forall|q: (u64, u32)|
                                        q.0 != node && old(self).store().chunk_map().contains_key(q)
                                            ==> #[trigger] final(self).store().chunk_map()[q]
                                            == old(self).store().chunk_map()[q]))
                            }
                        })
                    } else {
                        &&& flags.create && !flags.directory
                        &&& created_entry(
                            old(self).store(),
                            final(self).store(),
                            d,
                            nb,
                            FileType::RegularFile,
                        )
                        &&& final(self).fds() == old(self).fds().insert(
                            fd,
                            FdEntry::File(
                                (File { node: old(self).store().next_node_id(), stat, cursor: 0 }),
                            ),
                        ).insert(parent, old(self).fds()[parent])
                    }
                }),
                Err(e) => ({
                    let d = old(self).node_of(parent);
                    let nb = path.spec_bytes();
                    let parent_ok = old(self).is_dir_fd(parent) && old(self).is_live(parent);
                    let bound = parent_ok && old(self).store().dir_has_name(d, nb);
                    &&& final(self).fds() == old(self).fds()
                    &&& old(self).store().same_store(final(self).store())
                    &&& final(self).next_fd_id() == old(self).next_fd_id()
                    &&& (e == Error::NotFound && (!old(self).is_open(parent) || !old(self).is_live(
                        parent,
                    ) || (parent_ok && !old(self).store().dir_has_name(d, nb) && !flags.create)))
                        || (e == Error::InvalidFileType && (old(self).is_file_fd(parent) || (
                        parent_ok && !old(self).store().dir_has_name(d, nb) && flags.create
                            && flags.directory) || (bound && !flags.exclusive && old(
                        self,
                    ).store().metas()[old(self).store().dir_lookup(d, nb)].file_type
                        == FileType::RegularFile && flags.directory))) || (e
                        == Error::FileAlreadyExists && bound && flags.exclusive) || (e
                        == Error::NameTooLong && parent_ok && !old(self).store().dir_has_name(
                        d,
                        nb,
                    ) && flags.create && !flags.directory && nb.len() > 255) || (e
                        == Error::Unsupported && bound && !flags.exclusive && old(
                        self,
                    ).store().metas()[old(self).store().dir_lookup(d, nb)].file_type
                        == FileType::SymbolicLink)
                }),
            },
    {
        let dir = match self.get_dir(parent) {
            Ok(d) => d,
            Err(e) => {
                return Err(e);
            },
        };
        match self.storage.get_metadata(dir.node) {
            Ok(_) => {},
            Err(_) => {
                return Err(Error::NotFound);
            },
        }
        proof {
            assert(self.storage.dir_ok(dir.node));
        }
        match dir.find_node(path, &self.storage) {
            Ok(node) => {
                proof {
                    lemma_lookup_exists(self.storage, dir.node, path.spec_bytes());
                }
                self.open(node, stat, flags)
            },
            Err(Error::NotFound) => {
                if !flags.create {
                    return Err(Error::NotFound);
                }
                if flags.directory {
                    return Err(Error::InvalidFileType);
                }
                self.create_file(parent, path, stat)
            },
            Err(err) => Err(err),
        }
    }

    /// Creates a regular file named `path` under `parent` and opens it as
    /// a fresh descriptor.
    pub fn create_file(&mut self, parent: Fd, path: &str, stat: FdStat) -> (res: Result<Fd, Error>)
        requires
            old(self).wf(),
            old(self).next_fd_id() < u32::MAX,
            old(self).store().next_node_id() < u64::MAX,
            old(self).store().next_entry_index() < u32::MAX,
        ensures
            final(self).wf(),
            final(self).root_fd_spec() == old(self).root_fd_spec(),
            match res {
                Ok(fd) => {
                    &&& old(self).is_dir_fd(parent) && old(self).is_live(parent)
                    &&& !old(self).store().dir_has_name(
                        old(self).node_of(parent),
                        path.spec_bytes(),
                    )
                    &&& fd == old(self).next_fd_id()
                    &&& fd > old(self).root_fd_spec()
                    &&& final(self).next_fd_id() == old(self).next_fd_id() + 1
                    &&& created_entry(
                        old(self).store(),
                        final(self).store(),
                        old(self).node_of(parent),
                        path.spec_bytes(),
                        FileType::RegularFile,
                    )
                    &&& final(self).fds() == old(self).fds().insert(
                        fd,
                        FdEntry::File(
                            (File { node: old(self).store().next_node_id(), stat, cursor: 0 }),
                        ),
                    ).insert(parent, old(self).fds()[parent])
                },
                Err(e) => {
                    &&& final(self).fds() == old(self).fds()
                    &&& final(self).next_fd_id() == old(self).next_fd_id()
                    &&& old(self).store().same_store(final(self).store())
                    &&& (e == Error::NotFound && (!old(self).is_open(parent) || !old(self).is_live(parent))) || (e == Error::InvalidFileType && old(self).is_file_fd(
                        parent,
                    )) || (e == Error::NameTooLong && path.spec_bytes().len() > 255) || (e
                        == Error::FileAlreadyExists && old(self).is_dir_fd(parent) && old(self).is_live(parent) && old(self).store().dir_has_name(
                        old(self).node_of(parent),
                        path.spec_bytes(),
                    ))
                },
            },
    {
        let dir = match self.get_dir(parent) {
            Ok(d) => d,
            Err(e) => {
                return Err(e);
            },
        };
        match self.storage.get_metadata(dir.node) {
            Ok(_) => {},
            Err(_) => {
                return Err(Error::NotFound);
            },
        }
        let child = match dir.create_file(path, stat, &mut self.storage) {
            Ok(f) => f,
            Err(e) => {
                return Err(e);
            },
        };
        let child_fd = self.fd_table.open(FdEntry::File(child));
        self.put_dir(parent, dir);
        proof {
            lemma_fds_wf_after_create(*old(self), *self, parent, child_fd);
        }
        Ok(child_fd)
    }

    /// Creates a directory named `path` under `parent` and opens it as a
    /// fresh descriptor.
    pub fn create_dir(&mut self, parent: Fd, path: &str, stat: FdStat) -> (res: Result<Fd, Error>)
        requires
            old(self).wf(),
            old(self).next_fd_id() < u32::MAX,
            old(self).store().next_node_id() < u64::MAX,
            old(self).store().next_entry_index() < u32::MAX,
        ensures
            final(self).wf(),
            final(self).root_fd_spec() == old(self).root_fd_spec(),
            match res {
                Ok(fd) => {
                    &&& old(self).is_dir_fd(parent) && old(self).is_live(parent)
                    &&& !old(self).store().dir_has_name(
                        old(self).node_of(parent),
                        path.spec_bytes(),
                    )
                    &&& fd == old(self).next_fd_id()
                    &&& fd > old(self).root_fd_spec()
                    &&& final(self).next_fd_id() == old(self).next_fd_id() + 1
                    &&& created_entry(
                        old(self).store(),
                        final(self).store(),
                        old(self).node_of(parent),
                        path.spec_bytes(),
                        FileType::Directory,
                    )
                    &&& final(self).fds() == old(self).fds().insert(
                        fd,
                        FdEntry::Dir((Dir { node: old(self).store().next_node_id(), stat })),
                    ).insert(parent, old(self).fds()[parent])
                },
                Err(e) => {
                    &&& final(self).fds() == old(self).fds()
                    &&& final(self).next_fd_id() == old(self).next_fd_id()
                    &&& old(self).store().same_store(final(self).store())
                    &&& (e == Error::NotFound && (!old(self).is_open(parent) || !old(self).is_live(parent))) || (e == Error::InvalidFileType && old(self).is_file_fd(
                        parent,
                    )) || (e == Error::NameTooLong && path.spec_bytes().len() > 255) || (e
                        == Error::FileAlreadyExists && old(self).is_dir_fd(parent) && old(self).is_live(parent) && old(self).store().dir_has_name(
                        old(self).node_of(parent),
                        path.spec_bytes(),
                    ))
                },
            },
    {
        let dir = match self.get_dir(parent) {
            Ok(d) => d,
            Err(e) => {
                return Err(e);
            },
        };
        match self.storage.get_metadata(dir.node) {
            Ok(_) => {},
            Err(_) => {
                return Err(Error::NotFound);
            },
        }
        let child = match dir.create_dir(path, stat, &mut self.storage) {
            Ok(c) => c,
            Err(e) => {
                return Err(e);
            },
        };
        let child_fd = self.fd_table.open(FdEntry::Dir(child));
        self.put_dir(parent, dir);
        proof {
            lemma_fds_wf_after_create(*old(self), *self, parent, child_fd);
        }
        Ok(child_fd)
    }

    /// Unlinks the entry named `path` under `parent` and deletes the node
    /// it bound, with its content. A directory that still has entries is
    /// not removed. Open descriptors on the removed node survive and fail
    /// on use.
    pub fn remove_file(&mut self, parent: Fd, path: &str) -> (res: Result<(), Error>)
        requires
            old(self).wf(),
        ensures
            final(self).wf(),
            final(self).fds() == old(self).fds(),
            final(self).next_fd_id() == old(self).next_fd_id(),
            final(self).root_fd_spec() == old(self).root_fd_spec(),
            match res {
                Ok(()) => {
                    &&& old(self).is_dir_fd(parent) && old(self).is_live(parent)
                    &&& old(self).store().dir_has_name(
                        old(self).node_of(parent),
                        path.spec_bytes(),
                    )
                    &&& removed_entry(
                        old(self).store(),
                        final(self).store(),
                        old(self).node_of(parent),
                        path.spec_bytes(),
                    )
                },
                Err(e) => {
                    &&& old(self).store().same_store(final(self).store())
                    &&& (e == Error::NotFound && (!old(self).is_open(parent) || !old(self).is_live(parent) || !old(self).store().dir_has_name(
                        old(self).node_of(parent),
                        path.spec_bytes(),
                    ))) || (e == Error::InvalidFileType && old(self).is_file_fd(parent)) || (e
                        == Error::DirectoryNotEmpty && old(self).is_dir_fd(parent) && old(
                        self,
                    ).is_live(parent) && old(self).store().dir_has_name(
                        old(self).node_of(parent),
                        path.spec_bytes(),
                    ) && old(self).store().metas()[old(self).store().dir_lookup(
                        old(self).node_of(parent),
                        path.spec_bytes(),
                    )].file_type == FileType::Directory && old(self).store().lists()[old(
                        self,
                    ).store().dir_lookup(old(self).node_of(parent), path.spec_bytes())].len() > 0)
                },
            },
    {
        let dir = match self.get_dir(parent) {
            Ok(d) => d,
            Err(e) => {
                return Err(e);
            },
        };
        match self.storage.get_metadata(dir.node) {
            Ok(_) => {},
            Err(_) => {
                return Err(Error::NotFound);
            },
        }
        let res = dir.rm_entry(path, &mut self.storage);
        match res {
            Ok(()) => {
                proof {
                    let s1 = old(self).store();
                    let s2 = self.storage;
                    assert forall|f: u32|
                        #[trigger] self.fds().contains_key(f) && s2.metas().contains_key(
                            fd_node(self.fds()[f]),
                        ) implies (self.fds()[f] is File ==> s2.metas()[fd_node(
                        self.fds()[f],
                    )].file_type == FileType::RegularFile) && (self.fds()[f] is Dir
                        ==> s2.metas()[fd_node(self.fds()[f])].file_type
                        == FileType::Directory) by {
                        let x = fd_node(self.fds()[f]);
                        assert(s1.metas().contains_key(x));
                        assert(s2.metas()[x].file_type == s1.metas()[x].file_type);
                    }
                }
                Ok(())
            },
            Err(e) => Err(e),
        }
    }

    /// Points `fd_to` at the handle `fd` holds and closes `fd`;
    /// duplicate-onto-target semantics for descriptor renumbering.
    pub fn renumber(&mut self, fd: Fd, fd_to: Fd) -> (res: Result<(), Error>)
        requires
            old(self).wf(),
            fd_to < u32::MAX,
        ensures
            final(self).wf(),
            final(self).store() == old(self).store(),
            final(self).root_fd_spec() == old(self).root_fd_spec() || fd_to == old(self).root_fd_spec(),
            match res {
                Ok(()) => old(self).is_open(fd) && final(self).fds() == old(self).fds().remove(
                    fd,
                ).insert(fd_to, old(self).fds()[fd]),
                Err(e) => e == Error::NotFound && !old(self).is_open(fd) && final(self).fds()
                    == old(self).fds(),
            },
    {
        match self.fd_table.renumber(fd, fd_to) {
            Ok(()) => Ok(()),
            Err(e) => Err(e),
        }
    }
}

/// After a create under `parent`, every descriptor — the re-published
/// parent, the fresh child, and all the others — still satisfies the
/// table's well-formedness clauses.
proof fn lemma_fds_wf_after_create(fs1: FileSystem, fs2: FileSystem, parent: u32, child_fd: u32)
    requires
        fs1.wf(),
        fs2.store().store_ok(),
        fs2.store().next_node_id() == fs1.store().next_node_id() + 1,
        fs2.next_fd_id() == fs1.next_fd_id() + 1,
        fs1.is_dir_fd(parent),
        child_fd == fs1.next_fd_id(),
        fd_node(fs2.fds()[child_fd]) == fs1.store().next_node_id(),
        fs2.fds().contains_key(child_fd),
        fs2.store().metas().contains_key(fd_node(fs2.fds()[child_fd])),
        fs2.fds()[child_fd] is File ==> fs2.store().metas()[fd_node(
            fs2.fds()[child_fd],
        )].file_type == FileType::RegularFile,
        fs2.fds()[child_fd] is Dir ==> fs2.store().metas()[fd_node(fs2.fds()[child_fd])].file_type
            == FileType::Directory,
        fs2.fds() == fs1.fds().insert(child_fd, fs2.fds()[child_fd]).insert(
            parent,
            fs1.fds()[parent],
        ),
        fs2.root_fd_spec() == fs1.root_fd_spec(),
        forall|n: u64|
            #[trigger] fs1.store().metas().contains_key(n) ==> fs2.store().metas().contains_key(n)
                && fs2.store().metas()[n].file_type == fs1.store().metas()[n].file_type,
        forall|x: u64|
            #[trigger] fs2.store().metas().contains_key(x) ==> fs1.store().metas().contains_key(x)
                || x == fs1.store().next_node_id(),
    ensures
        fs2.wf(),
{
    assert forall|f: u32| #[trigger] fs2.fds().contains_key(f) implies f < fs2.next_fd_id()
        && fd_node(fs2.fds()[f]) < fs2.store().next_node_id() by {
        if f != child_fd {
            assert(fs1.fds().contains_key(f));
        }
    }
    assert forall|f: u32|
        #[trigger] fs2.fds().contains_key(f) && fs2.store().metas().contains_key(
            fd_node(fs2.fds()[f]),
        ) implies (fs2.fds()[f] is File ==> fs2.store().metas()[fd_node(fs2.fds()[f])].file_type
        == FileType::RegularFile) && (fs2.fds()[f] is Dir ==> fs2.store().metas()[fd_node(
        fs2.fds()[f],
    )].file_type == FileType::Directory) by {
        if f != child_fd {
            assert(fs1.fds().contains_key(f));
            let x = fd_node(fs1.fds()[f]);
            if fs1.store().metas().contains_key(x) {
                assert(fs2.store().metas()[x].file_type == fs1.store().metas()[x].file_type);
            } else {
                assert(x != fs1.store().next_node_id());
            }
        }
    }
}

} // verus!
