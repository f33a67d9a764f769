//! The file-descriptor table: allocates and tracks open handles,
//! independent of the nodes they reference.
use crate::dir::Dir;
use crate::error::Error;
use crate::file::File;
use std::collections::HashMap;
use vstd::prelude::*;

verus! {

broadcast use vstd::std_specs::hash::group_hash_axioms;

/// A process-local handle to one open File or Directory instance.
pub type Fd = u32;

/// The tagged handle an open descriptor carries.
#[derive(Clone, Copy, Debug)]
pub enum FdEntry {
    File(File),
    Dir(Dir),
}

/// The descriptor table. Descriptors are handed out monotonically and
/// never reused while the table lives.
pub struct FdTable {
    next_fd: u32,
    table: HashMap<u32, FdEntry>,
}

impl FdTable {
    /// The open descriptors and their handles.
    pub closed spec fn entries(self) -> Map<u32, FdEntry> {
        self.table@
    }

    /// The next descriptor to be handed out.
    pub closed spec fn next_fd_id(self) -> u32 {
        self.next_fd
    }

    /// Every open descriptor lies below the allocation watermark.
    pub open spec fn table_ok(self) -> bool {
        forall|f: u32| #[trigger] self.entries().contains_key(f) ==> f < self.next_fd_id()
    }

    /// An empty table.
    pub fn new() -> (t: FdTable)
        ensures
            t.entries() == Map::<u32, FdEntry>::empty(),
            t.next_fd_id() == 0,
    {
        FdTable { next_fd: 0, table: HashMap::new() }
    }

    /// Stores a handle under a fresh descriptor, strictly above every
    /// descriptor handed out before.
    pub fn open(&mut self, entry: FdEntry) -> (fd: Fd)
        requires
            old(self).next_fd_id() < u32::MAX,
        ensures
            fd == old(self).next_fd_id(),
            final(self).entries() == old(self).entries().insert(fd, entry),
            final(self).next_fd_id() == old(self).next_fd_id() + 1,
    {
        let fd = self.next_fd;
        self.table.insert(fd, entry);
        self.next_fd = self.next_fd + 1;
        fd
    }

    /// Looks a descriptor up.
    pub fn get(&self, fd: Fd) -> (res: Option<FdEntry>)
        ensures
            match res {
                Some(e) => self.entries().contains_key(fd) && e == self.entries()[fd],
                None => !self.entries().contains_key(fd),
            },
    {
        match self.table.get(&fd) {
            Some(e) => Some(*e),
            None => None,
        }
    }

    /// Replaces the handle of an open descriptor; absent descriptors are
    /// left alone.
    pub fn update(&mut self, fd: Fd, entry: FdEntry)
        ensures
            final(self).entries() == (if old(self).entries().contains_key(fd) {
                old(self).entries().insert(fd, entry)
            } else {
                old(self).entries()
            }),
            final(self).next_fd_id() == old(self).next_fd_id(),
    {
        if self.table.contains_key(&fd) {
            self.table.insert(fd, entry);
        }
    }

    /// Closes a descriptor; other descriptors are untouched, and the
    /// closed number is never handed out again.
    pub fn close(&mut self, fd: Fd) -> (res: Result<(), Error>)
        ensures
            match res {
                Ok(()) => old(self).entries().contains_key(fd) && final(self).entries() == old(
                    self,
                ).entries().remove(fd),
                Err(e) => e == Error::NotFound && !old(self).entries().contains_key(fd)
                    && final(self).entries() == old(self).entries(),
            },
            final(self).next_fd_id() == old(self).next_fd_id(),
    {
        match self.table.remove(&fd) {
            Some(_) => Ok(()),
            None => Err(Error::NotFound),
        }
    }

    /// Points the target descriptor at the source's handle and closes the
    /// source; duplicate-onto-target semantics.
    pub fn renumber(&mut self, fd: Fd, fd_to: Fd) -> (res: Result<(), Error>)
        requires
            fd_to < u32::MAX,
        ensures
            match res {
                Ok(()) => {
                    &&& old(self).entries().contains_key(fd)
                    &&& final(self).entries() == old(self).entries().remove(fd).insert(
                        fd_to,
                        old(self).entries()[fd],
                    )
                    &&& final(self).next_fd_id() == (if fd_to >= old(self).next_fd_id() {
                        fd_to + 1
                    } else {
                        old(self).next_fd_id() as int
                    })
                },
                Err(e) => e == Error::NotFound && !old(self).entries().contains_key(fd)
                    && final(self).entries() == old(self).entries() && final(self).next_fd_id()
                    == old(self).next_fd_id(),
            },
    {
        let entry = match self.table.remove(&fd) {
            Some(e) => e,
            None => {
                return Err(Error::NotFound);
            },
        };
        self.table.insert(fd_to, entry);
        if fd_to >= self.next_fd {
            self.next_fd = fd_to + 1;
        }
        Ok(())
    }
}

} // verus!
