//! The directory abstraction: name resolution over a per-directory doubly
//! linked entry list, and creation/removal of entries preserving the list
//! invariants.
use crate::error::Error;
use crate::file::File;
use crate::storage::{initial_metadata, Storage};
use crate::types::{
    DirEntry, DirEntryIndex, FdStat, FileName, FileType, Metadata, Node, MAX_FILE_SIZE,
};
use vstd::prelude::*;
use vstd::string::StringSliceAdditionalSpecFns;

verus! {

/// An open directory: the node it references and the per-descriptor stat.
/// A handle value, owned by the descriptor table.
#[derive(Clone, Copy, Debug)]
pub struct Dir {
    pub node: Node,
    pub stat: FdStat,
}

impl Dir {
    /// Opens the node as a directory.
    pub fn new(node: Node, stat: FdStat, storage: &Storage) -> (res: Result<Dir, Error>)
        ensures
            match res {
                Ok(d) => {
                    &&& storage.metas().contains_key(node)
                    &&& storage.metas()[node].file_type == FileType::Directory
                    &&& d.node == node
                    &&& d.stat == stat
                },
                Err(e) => {
                    &&& (e == Error::NotFound && !storage.metas().contains_key(node)) || (e
                        == Error::InvalidFileType && storage.metas().contains_key(node)
                        && storage.metas()[node].file_type != FileType::Directory)
                },
            },
    {
        let m = match storage.get_metadata(node) {
            Ok(m) => m,
            Err(e) => {
                return Err(e);
            },
        };
        match m.file_type {
            FileType::Directory => Ok(Dir { node, stat }),
            _ => Err(Error::InvalidFileType),
        }
    }

    /// Direct, random-access read of one entry record by its index.
    pub fn get_entry(&self, index: DirEntryIndex, storage: &Storage) -> (res: Result<
        DirEntry,
        Error,
    >)
        ensures
            match res {
                Ok(e) => storage.entry_map().contains_key((self.node, index)) && e
                    == storage.entry_map()[(self.node, index)],
                Err(e) => e == Error::NotFound && !storage.entry_map().contains_key(
                    (self.node, index),
                ),
            },
    {
        storage.get_direntry(self.node, index)
    }

    /// Scans the entry list for a name; yields the entry's index, record
    /// and list position.
    fn find_entry(&self, bytes: &[u8], storage: &Storage) -> (res: Result<
        (DirEntryIndex, DirEntry, Ghost<int>),
        Error,
    >)
        requires
            storage.dir_ok(self.node),
        ensures
            match res {
                Ok(t) => {
                    let l = storage.lists()[self.node];
                    &&& storage.dir_has_name(self.node, bytes@)
                    &&& t.2@ == storage.dir_name_index(self.node, bytes@)
                    &&& 0 <= t.2@ < l.len()
                    &&& l[t.2@] == t.0
                    &&& storage.entry_map().contains_key((self.node, t.0))
                    &&& t.1 == storage.entry_map()[(self.node, t.0)]
                    &&& t.1.name@ == bytes@
                    &&& t.1.node == storage.dir_lookup(self.node, bytes@)
                },
                Err(e) => e == Error::NotFound && !storage.dir_has_name(self.node, bytes@),
            },
    {
        let ghost l = storage.lists()[self.node];
        let m = match storage.get_metadata(self.node) {
            Ok(m) => m,
            Err(e) => {
                return Err(e);
            },
        };
        let mut cur: Option<DirEntryIndex> = m.first_dir_entry;
        let ghost mut k: int = 0;
        loop
            invariant
                storage.dir_ok(self.node),
                l == storage.lists()[self.node],
                0 <= k <= l.len(),
                cur == (if k < l.len() {
                    Some(l[k])
                } else {
                    Option::<DirEntryIndex>::None
                }),
                forall|j: int|
                    0 <= j < k ==> (#[trigger] storage.entry_map()[(self.node, l[j])].name)@
                        != bytes@,
            decreases l.len() - k,
        {
            match cur {
                None => {
                    proof {
                        assert(!storage.dir_has_name(self.node, bytes@));
                    }
                    return Err(Error::NotFound);
                },
                Some(i) => {
                    let e = match storage.get_direntry(self.node, i) {
                        Ok(e) => e,
                        Err(err) => {
                            return Err(err);
                        },
                    };
                    if e.name.matches_bytes(bytes) {
                        proof {
                            assert(storage.entry_map()[(self.node, l[k])].name@ == bytes@);
                            assert(storage.dir_has_name(self.node, bytes@));
                            let k2 = storage.dir_name_index(self.node, bytes@);
                            assert(0 <= k2 < l.len() && storage.entry_map()[(self.node, l[k2])].name@
                                == bytes@);
                            if k2 != k {
                                assert(false);
                            }
                        }
                        return Ok((i, e, Ghost(k)));
                    }
                    cur = e.next_entry;
                    proof {
                        k = k + 1;
                    }
                },
            }
        }
    }

    /// Resolves a name to the node it binds inside this directory, by a
    /// linear scan from the list head; `NotFound` at the list end.
    pub fn find_node(&self, path: &str, storage: &Storage) -> (res: Result<Node, Error>)
        requires
            storage.dir_ok(self.node),
        ensures
            match res {
                Ok(n) => storage.dir_has_name(self.node, path.spec_bytes()) && n == storage.dir_lookup(
                    self.node,
                    path.spec_bytes(),
                ),
                Err(e) => e == Error::NotFound && !storage.dir_has_name(
                    self.node,
                    path.spec_bytes(),
                ),
            },
    {
        match self.find_entry(path.as_bytes(), storage) {
            Ok((_, e, _)) => Ok(e.node),
            Err(err) => Err(err),
        }
    }
}

/// What creating an entry does to the store: a fresh node of the given
/// type exists with its initial metadata, a fresh entry binding `name` to
/// it hangs at the tail of `d`'s list (relinking the old tail and the
/// parent's head/tail pointers), and nothing else changed.
pub open spec fn created_entry(
    s1: Storage,
    s2: Storage,
    d: u64,
    name: Seq<u8>,
    file_type: FileType,
) -> bool {
    let n = s1.next_node_id();
    let i = s1.next_entry_index();
    let l = s1.lists()[d];
    &&& s2.store_ok()
    &&& s2.lists() == (if file_type == FileType::Directory {
        s1.lists().insert(n, Seq::<u32>::empty()).insert(d, l.push(i))
    } else {
        s1.lists().insert(d, l.push(i))
    })
    &&& s2.metas() == s1.metas().insert(n, initial_metadata(n, file_type)).insert(
        d,
        (Metadata {
            size: (l.len() + 1) as u64,
            first_dir_entry: if l.len() == 0 {
                Some(i)
            } else {
                s1.metas()[d].first_dir_entry
            },
            last_dir_entry: Some(i),
            ..s1.metas()[d]
        }),
    )
    &&& s2.entry_map().contains_key((d, i))
    &&& s2.entry_map()[(d, i)].name@ == name
    &&& s2.entry_map()[(d, i)].node == n
    &&& s2.entry_map()[(d, i)].prev_entry == s1.metas()[d].last_dir_entry
    &&& s2.entry_map()[(d, i)].next_entry is None
    &&& forall|q: (u64, u32)|
        q != (d, i) && (l.len() == 0 || q != (d, l[l.len() - 1])) ==> (
        #[trigger] s2.entry_map().contains_key(q) <==> s1.entry_map().contains_key(q))
    &&& forall|q: (u64, u32)|
        q != (d, i) && (l.len() == 0 || q != (d, l[l.len() - 1])) && s1.entry_map().contains_key(q)
            ==> #[trigger] s2.entry_map()[q] == s1.entry_map()[q]
    &&& l.len() > 0 ==> s2.entry_map().contains_key((d, l[l.len() - 1]))
        && s2.entry_map()[(d, l[l.len() - 1])] == (DirEntry {
        next_entry: Some(i),
        ..s1.entry_map()[(d, l[l.len() - 1])]
    })
    &&& s2.chunk_map() == s1.chunk_map()
    &&& s2.next_node_id() == s1.next_node_id() + 1
    &&& s2.next_entry_index() == s1.next_entry_index() + 1
    &&& s2.dir_has_name(d, name)
    &&& s2.dir_lookup(d, name) == n
}

impl Dir {
    /// Creates a fresh node of the given type under this directory,
    /// appending its entry at the tail of the list. Fails when the name is
    /// over the bound or already bound; then nothing changed.
    pub fn create_entry(
        &self,
        path: &str,
        file_type: FileType,
        storage: &mut Storage,
    ) -> (res: Result<Node, Error>)
        requires
            old(storage).store_ok(),
            old(storage).metas().contains_key(self.node),
            old(storage).metas()[self.node].file_type == FileType::Directory,
            old(storage).next_node_id() < u64::MAX,
            old(storage).next_entry_index() < u32::MAX,
            file_type != FileType::SymbolicLink,
        ensures
            match res {
                Ok(n) => {
                    &&& path.spec_bytes().len() <= 255
                    &&& !old(storage).dir_has_name(self.node, path.spec_bytes())
                    &&& n == old(storage).next_node_id()
                    &&& created_entry(
                        *old(storage),
                        *final(storage),
                        self.node,
                        path.spec_bytes(),
                        file_type,
                    )
                },
                Err(e) => {
                    &&& *final(storage) == *old(storage)
                    &&& (e == Error::NameTooLong && path.spec_bytes().len() > 255) || (e
                        == Error::FileAlreadyExists && old(storage).dir_has_name(
                        self.node,
                        path.spec_bytes(),
                    ))
                },
            },
    {
        let d = self.node;
        proof {
            assert(old(storage).dir_ok(d));
        }
        let name = match FileName::new(path) {
            Ok(f) => f,
            Err(e) => {
                return Err(e);
            },
        };
        match self.find_entry(path.as_bytes(), storage) {
            Ok(_) => {
                return Err(Error::FileAlreadyExists);
            },
            Err(_) => {},
        }
        let ghost s0 = *storage;
        let ghost l = storage.lists()[d];
        let m = match storage.get_metadata(d) {
            Ok(m) => m,
            Err(e) => {
                return Err(e);
            },
        };
        let n = storage.new_node_id();
        let i = storage.new_entry_index();
        storage.put_metadata(
            d,
            Metadata {
                size: m.size + 1,
                first_dir_entry: match m.first_dir_entry {
                    Some(f) => Some(f),
                    None => Some(i),
                },
                last_dir_entry: Some(i),
                ..m
            },
        );
        let nm = Metadata {
            node: n,
            file_type,
            link_count: 1,
            size: 0,
            times: crate::types::Times { accessed: 0, modified: 0, created: 0 },
            first_dir_entry: None,
            last_dir_entry: None,
        };
        storage.put_metadata(n, nm);
        let e = DirEntry { name, node: n, next_entry: None, prev_entry: m.last_dir_entry };
        storage.put_direntry(d, i, e);
        match m.last_dir_entry {
            Some(tail) => {
                proof {
                    assert(l.len() > 0 && tail == l[l.len() - 1]);
                    assert(storage.entry_map().contains_key((d, tail)));
                }
                let mut te = match storage.get_direntry(d, tail) {
                    Ok(te) => te,
                    Err(err) => {
                        return Err(err);
                    },
                };
                te.next_entry = Some(i);
                storage.put_direntry(d, tail, te);
            },
            None => {},
        }
        if matches!(file_type, FileType::Directory) {
            storage.set_list(n, Ghost(Seq::<u32>::empty()));
        }
        storage.set_list(d, Ghost(l.push(i)));
        proof {
            let s2 = *storage;
            let len = l.len() as int;
            let l2 = l.push(i);
            let nb = path.spec_bytes();
            assert(s2.lists()[d] == l2);
            assert(s2.metas() =~= s0.metas().insert(n, initial_metadata(n, file_type)).insert(
                d,
                (Metadata {
                    size: (l.len() + 1) as u64,
                    first_dir_entry: if l.len() == 0 {
                        Some(i)
                    } else {
                        s0.metas()[d].first_dir_entry
                    },
                    last_dir_entry: Some(i),
                    ..s0.metas()[d]
                }),
            ));
            assert(s2.lists() =~= (if file_type == FileType::Directory {
                s0.lists().insert(n, Seq::<u32>::empty()).insert(d, l.push(i))
            } else {
                s0.lists().insert(d, l.push(i))
            }));
            // every old name in the directory differs from the new name
            assert forall|k: int| 0 <= k < len implies (#[trigger] s0.entry_map()[(d, l[k])].name)@
                != nb by {
                if s0.entry_map()[(d, l[k])].name@ == nb {
                    assert(s0.dir_has_name(d, nb));
                }
            }
            // old entries of this directory survive, the tail only with a new
            // next link
            assert forall|k: int| 0 <= k < len implies s2.entry_map().contains_key(
                (d, #[trigger] l[k]),
            ) && s2.entry_map()[(d, l[k])].name == s0.entry_map()[(d, l[k])].name
                && s2.entry_map()[(d, l[k])].node == s0.entry_map()[(d, l[k])].node
                && s2.entry_map()[(d, l[k])].prev_entry == s0.entry_map()[(d, l[k])].prev_entry by {
                assert(l[k] < i);
            }
            // the new directory's well-formedness
            assert(s2.dir_ok(d)) by {
                assert(l2.no_duplicates()) by {
                    assert forall|k1: int, k2: int|
                        0 <= k1 < l2.len() && 0 <= k2 < l2.len() && k1 != k2 implies l2[k1]
                        != l2[k2] by {
                        if k1 < len && k2 < len {
                            assert(l[k1] != l[k2]);
                        }
                    }
                }
                assert forall|k: int| 0 <= k < l2.len() implies (#[trigger] s2.entry_map()[(d, l2[k])]).next_entry == (if k == l2.len() - 1 {
                    Option::<u32>::None
                } else {
                    Some(l2[k + 1])
                }) by {
                    if k < len - 1 {
                        assert(s2.entry_map()[(d, l[k])] == s0.entry_map()[(d, l[k])]);
                    }
                }
                assert forall|i2: u32| #[trigger] s2.entry_map().contains_key(
                    (d, i2),
                ) implies l2.contains(i2) by {
                    if i2 == i {
                        assert(l2[len] == i);
                    } else {
                        assert(s0.entry_map().contains_key((d, i2)));
                        let j = choose|j: int| 0 <= j < l.len() && l[j] == i2;
                        assert(l2[j] == i2);
                    }
                }
            }
            // the fresh node's own well-formedness
            if file_type == FileType::Directory {
                assert(s2.dir_ok(n)) by {
                    assert forall|i2: u32| !(#[trigger] s2.entry_map().contains_key((n, i2))) by {
                        if s2.entry_map().contains_key((n, i2)) {
                            if !((n, i2) == (d, i)) && (l.len() == 0 || (n, i2) != (
                                d,
                                l[l.len() - 1],
                            )) {
                                assert(s0.entry_map().contains_key((n, i2)));
                                assert(s0.metas().contains_key(n));
                            }
                        }
                    }
                }
            } else {
                assert(s2.file_ok(n)) by {
                    assert forall|ci: u32| !(#[trigger] s2.chunk_map().contains_key((n, ci))) by {
                        if s2.chunk_map().contains_key((n, ci)) {
                            assert(s0.metas().contains_key(n));
                        }
                    }
                    assert forall|p: int| 0 <= p < MAX_FILE_SIZE implies #[trigger] s2.byte_at(
                        n,
                        p,
                    ) == 0 by {
                        crate::storage::lemma_pos_chunk(p);
                    }
                }
            }
            // every other directory and file is untouched
            assert forall|n2: u64|
                s2.metas().contains_key(n2) && s2.metas()[n2].file_type == FileType::Directory && n2
                    != d && n2 != n implies #[trigger] s2.dir_ok(n2) by {
                assert(s0.metas().contains_key(n2));
                assert(s0.dir_ok(n2));
                crate::storage::lemma_dir_ok_preserved(s0, s2, n2);
            }
            assert forall|n2: u64|
                s2.metas().contains_key(n2) && s2.metas()[n2].file_type == FileType::RegularFile
                    && n2 != n implies #[trigger] s2.file_ok(n2) by {
                assert(s0.metas().contains_key(n2));
                assert(s0.file_ok(n2));
                crate::storage::lemma_file_ok_preserved(s0, s2, n2);
            }
            // entry targets stay distinct; the fresh node is above every old id
            assert forall|q1: (u64, u32), q2: (u64, u32)|
                #[trigger] s2.entry_map().contains_key(q1) && #[trigger] s2.entry_map().contains_key(
                    q2,
                ) && q1 != q2 implies s2.entry_map()[q1].node != s2.entry_map()[q2].node by {
                if q1 != (d, i) && q2 != (d, i) {
                    assert(s0.entry_map().contains_key(q1) && s0.entry_map().contains_key(q2));
                    assert(s2.entry_map()[q1].node == s0.entry_map()[q1].node);
                    assert(s2.entry_map()[q2].node == s0.entry_map()[q2].node);
                } else {
                    let qo = if q1 == (d, i) {
                        q2
                    } else {
                        q1
                    };
                    assert(s0.entry_map().contains_key(qo));
                    assert(s0.metas().contains_key(qo.0));
                    assert(s0.dir_ok(qo.0));
                    let lo = s0.lists()[qo.0];
                    assert(lo.contains(qo.1));
                    let j = choose|j: int| 0 <= j < lo.len() && lo[j] == qo.1;
                    assert(s0.metas().contains_key(s0.entry_map()[(qo.0, lo[j])].node));
                    assert((qo.0, lo[j]) == qo);
                    assert(s2.entry_map()[qo].node == s0.entry_map()[qo].node);
                }
            }
            assert forall|q: (u64, u32)| #[trigger] s2.entry_map().contains_key(
                q,
            ) implies s2.metas().contains_key(q.0) && s2.metas()[q.0].file_type
                == FileType::Directory && s2.entry_map()[q].node != crate::storage::ROOT_NODE by {
                if q != (d, i) {
                    assert(s0.entry_map().contains_key(q));
                    assert(s2.entry_map()[q].node == s0.entry_map()[q].node);
                }
            }
            assert forall|q: (u64, u32)| #[trigger] s2.chunk_map().contains_key(
                q,
            ) implies s2.metas().contains_key(q.0) && s2.metas()[q.0].file_type
                == FileType::RegularFile by {
                assert(s0.chunk_map().contains_key(q));
            }
            assert forall|d2: u64| #[trigger] s2.lists().contains_key(d2) implies s2.metas().contains_key(
                d2,
            ) && s2.metas()[d2].file_type == FileType::Directory by {
                if d2 != d && d2 != n {
                    assert(s0.lists().contains_key(d2));
                }
            }
            assert(s2.store_ok());
            // the new name resolves to the new node
            assert(s2.entry_map()[(d, l2[len])].name@ == nb);
            assert(s2.dir_has_name(d, nb));
            let k2 = s2.dir_name_index(d, nb);
            assert(0 <= k2 < l2.len() && s2.entry_map()[(d, l2[k2])].name@ == nb);
            if k2 != len {
                assert(s2.entry_map()[(d, l[k2])].name == s0.entry_map()[(d, l[k2])].name);
                assert(false);
            }
            assert(s2.dir_lookup(d, nb) == n);
        }
        Ok(n)
    }
}

/// What removing the entry named `name` does to the store: the entry is
/// unlinked (neighbors and the parent's head/tail pointers relinked), the
/// target node's metadata, chunks and list are gone, and nothing else
/// changed.
pub open spec fn removed_entry(s1: Storage, s2: Storage, d: u64, name: Seq<u8>) -> bool {
    let l = s1.lists()[d];
    let k = s1.dir_name_index(d, name);
    let i = l[k];
    let tn = s1.dir_lookup(d, name);
    let l2 = l.remove(k);
    &&& s2.store_ok()
    &&& s2.lists() == (if s1.metas()[tn].file_type == FileType::Directory {
        s1.lists().insert(d, l2).remove(tn)
    } else {
        s1.lists().insert(d, l2)
    })
    &&& s2.metas() == s1.metas().insert(
        d,
        (Metadata {
            size: l2.len() as u64,
            first_dir_entry: if l2.len() == 0 {
                None
            } else {
                Some(l2[0])
            },
            last_dir_entry: if l2.len() == 0 {
                None
            } else {
                Some(l2[l2.len() - 1])
            },
            ..s1.metas()[d]
        }),
    ).remove(tn)
    &&& !s2.entry_map().contains_key((d, i))
    &&& forall|q: (u64, u32)|
        q != (d, i) ==> (#[trigger] s2.entry_map().contains_key(q)
            <==> s1.entry_map().contains_key(q))
    &&& forall|q: (u64, u32)|
        q != (d, i) && (k == 0 || q != (d, l[k - 1])) && (k == l.len() - 1 || q != (d, l[k + 1]))
            && s1.entry_map().contains_key(q) ==> #[trigger] s2.entry_map()[q] == s1.entry_map()[q]
    &&& k > 0 ==> s2.entry_map()[(d, l[k - 1])] == (DirEntry {
        next_entry: if k == l.len() - 1 {
            None
        } else {
            Some(l[k + 1])
        },
        ..s1.entry_map()[(d, l[k - 1])]
    })
    &&& k < l.len() - 1 ==> s2.entry_map()[(d, l[k + 1])] == (DirEntry {
        prev_entry: if k == 0 {
            None
        } else {
            Some(l[k - 1])
        },
        ..s1.entry_map()[(d, l[k + 1])]
    })
    &&& forall|ci: u32| !(#[trigger] s2.chunk_map().contains_key((tn, ci)))
    &&& forall|q: (u64, u32)|
        q.0 != tn ==> (#[trigger] s2.chunk_map().contains_key(q)
            <==> s1.chunk_map().contains_key(q))
    &&& forall|q: (u64, u32)|
        q.0 != tn && s1.chunk_map().contains_key(q) ==> #[trigger] s2.chunk_map()[q]
            == s1.chunk_map()[q]
    &&& !s2.metas().contains_key(tn)
    &&& s2.next_node_id() == s1.next_node_id()
    &&& s2.next_entry_index() == s1.next_entry_index()
    &&& !s2.dir_has_name(d, name)
}

impl Dir {
    /// Creates a regular file under this directory and opens it.
    pub fn create_file(&self, path: &str, stat: FdStat, storage: &mut Storage) -> (res: Result<
        File,
        Error,
    >)
        requires
            old(storage).store_ok(),
            old(storage).metas().contains_key(self.node),
            old(storage).metas()[self.node].file_type == FileType::Directory,
            old(storage).next_node_id() < u64::MAX,
            old(storage).next_entry_index() < u32::MAX,
        ensures
            match res {
                Ok(f) => {
                    &&& path.spec_bytes().len() <= 255
                    &&& !old(storage).dir_has_name(self.node, path.spec_bytes())
                    &&& f.node == old(storage).next_node_id()
                    &&& f.stat == stat
                    &&& f.pos() == 0
                    &&& created_entry(
                        *old(storage),
                        *final(storage),
                        self.node,
                        path.spec_bytes(),
                        FileType::RegularFile,
                    )
                },
                Err(e) => {
                    &&& *final(storage) == *old(storage)
                    &&& (e == Error::NameTooLong && path.spec_bytes().len() > 255) || (e
                        == Error::FileAlreadyExists && old(storage).dir_has_name(
                        self.node,
                        path.spec_bytes(),
                    ))
                },
            },
    {
        let n = match self.create_entry(path, FileType::RegularFile, storage) {
            Ok(n) => n,
            Err(e) => {
                return Err(e);
            },
        };
        match File::new(n, stat, storage) {
            Ok(f) => Ok(f),
            Err(e) => Err(e),
        }
    }

    /// Creates a subdirectory under this directory and opens it.
    pub fn create_dir(&self, path: &str, stat: FdStat, storage: &mut Storage) -> (res: Result<
        Dir,
        Error,
    >)
        requires
            old(storage).store_ok(),
            old(storage).metas().contains_key(self.node),
            old(storage).metas()[self.node].file_type == FileType::Directory,
            old(storage).next_node_id() < u64::MAX,
            old(storage).next_entry_index() < u32::MAX,
        ensures
            match res {
                Ok(c) => {
                    &&& path.spec_bytes().len() <= 255
                    &&& !old(storage).dir_has_name(self.node, path.spec_bytes())
                    &&& c.node == old(storage).next_node_id()
                    &&& c.stat == stat
                    &&& created_entry(
                        *old(storage),
                        *final(storage),
                        self.node,
                        path.spec_bytes(),
                        FileType::Directory,
                    )
                },
                Err(e) => {
                    &&& *final(storage) == *old(storage)
                    &&& (e == Error::NameTooLong && path.spec_bytes().len() > 255) || (e
                        == Error::FileAlreadyExists && old(storage).dir_has_name(
                        self.node,
                        path.spec_bytes(),
                    ))
                },
            },
    {
        let n = match self.create_entry(path, FileType::Directory, storage) {
            Ok(n) => n,
            Err(e) => {
                return Err(e);
            },
        };
        match Dir::new(n, stat, storage) {
            Ok(c) => Ok(c),
            Err(e) => Err(e),
        }
    }

    /// Removes the entry named `path` from this directory, relinking its
    /// neighbors, and deletes the target node with its content. Removal of
    /// a directory that still has entries is rejected: this implementation
    /// does not cascade.
    #[verifier::rlimit(100)]
    pub fn rm_entry(&self, path: &str, storage: &mut Storage) -> (res: Result<(), Error>)
        requires
            old(storage).store_ok(),
            old(storage).metas().contains_key(self.node),
            old(storage).metas()[self.node].file_type == FileType::Directory,
        ensures
            match res {
                Ok(()) => {
                    &&& old(storage).dir_has_name(self.node, path.spec_bytes())
                    &&& removed_entry(*old(storage), *final(storage), self.node, path.spec_bytes())
                },
                Err(e) => {
                    &&& *final(storage) == *old(storage)
                    &&& (e == Error::NotFound && !old(storage).dir_has_name(
                        self.node,
                        path.spec_bytes(),
                    )) || (e == Error::DirectoryNotEmpty && old(storage).dir_has_name(
                        self.node,
                        path.spec_bytes(),
                    ) && old(storage).metas()[old(storage).dir_lookup(
                        self.node,
                        path.spec_bytes(),
                    )].file_type == FileType::Directory && old(storage).lists()[old(
                        storage,
                    ).dir_lookup(self.node, path.spec_bytes())].len() > 0)
                },
            },
    {
        let d = self.node;
        proof {
            assert(old(storage).dir_ok(d));
        }
        let (i, e, kg) = match self.find_entry(path.as_bytes(), storage) {
            Ok(t) => t,
            Err(err) => {
                return Err(err);
            },
        };
        let ghost s0 = *storage;
        let ghost l = storage.lists()[d];
        let ghost k = kg@;
        let tn = e.node;
        proof {
            assert(s0.metas().contains_key(tn));
            assert(tn != d);
            assert(tn != crate::storage::ROOT_NODE);
        }
        let tm = match storage.get_metadata(tn) {
            Ok(tm) => tm,
            Err(err) => {
                return Err(err);
            },
        };
        if matches!(tm.file_type, FileType::Directory) {
            proof {
                assert(s0.dir_ok(tn));
            }
            match tm.first_dir_entry {
                Some(_) => {
                    return Err(Error::DirectoryNotEmpty);
                },
                None => {},
            }
        }
        let m = match storage.get_metadata(d) {
            Ok(m) => m,
            Err(err) => {
                return Err(err);
            },
        };
        match e.prev_entry {
            Some(p) => {
                proof {
                    assert(k > 0 && p == l[k - 1]);
                    assert(storage.entry_map().contains_key((d, p)));
                }
                let mut pe = match storage.get_direntry(d, p) {
                    Ok(pe) => pe,
                    Err(err) => {
                        return Err(err);
                    },
                };
                pe.next_entry = e.next_entry;
                storage.put_direntry(d, p, pe);
            },
            None => {},
        }
        match e.next_entry {
            Some(x) => {
                proof {
                    assert(k < l.len() - 1 && x == l[k + 1]);
                    assert(storage.entry_map().contains_key((d, x)));
                }
                let mut xe = match storage.get_direntry(d, x) {
                    Ok(xe) => xe,
                    Err(err) => {
                        return Err(err);
                    },
                };
                xe.prev_entry = e.prev_entry;
                storage.put_direntry(d, x, xe);
            },
            None => {},
        }
        let mut m2 = m;
        m2.size = m.size - 1;
        if e.prev_entry.is_none() {
            m2.first_dir_entry = e.next_entry;
        }
        if e.next_entry.is_none() {
            m2.last_dir_entry = e.prev_entry;
        }
        storage.put_metadata(d, m2);
        storage.remove_direntry(d, i);
        storage.set_list(d, Ghost(l.remove(k)));
        if matches!(tm.file_type, FileType::RegularFile) {
            proof {
                assert(s0.file_ok(tn));
                crate::storage::lemma_file_ok_preserved(s0, *storage, tn);
            }
            let handle = File {
                node: tn,
                stat: crate::types::FdStat { flags: 0, rights_base: 0, rights_inheriting: 0 },
                cursor: 0,
            };
            match handle.truncate(storage) {
                Ok(()) => {},
                Err(err) => {
                    return Err(err);
                },
            }
        } else {
            storage.remove_list(tn);
        }
        storage.remove_metadata(tn);
        proof {
            let s2 = *storage;
            let len = l.len() as int;
            let l2 = l.remove(k);
            let nb = path.spec_bytes();
            assert(e == s0.entry_map()[(d, l[k])]);
            assert(l2.len() == len - 1);
            assert(s2.metas() =~= s0.metas().insert(
                d,
                (Metadata {
                    size: l2.len() as u64,
                    first_dir_entry: if l2.len() == 0 {
                        None
                    } else {
                        Some(l2[0])
                    },
                    last_dir_entry: if l2.len() == 0 {
                        None
                    } else {
                        Some(l2[l2.len() - 1])
                    },
                    ..s0.metas()[d]
                }),
            ).remove(tn));
            assert(s2.lists() =~= (if s0.metas()[tn].file_type == FileType::Directory {
                s0.lists().insert(d, l2).remove(tn)
            } else {
                s0.lists().insert(d, l2)
            }));
            assert forall|ci: u32| !(#[trigger] s2.chunk_map().contains_key((tn, ci))) by {
                if s2.chunk_map().contains_key((tn, ci)) {
                    assert(s0.chunk_map().contains_key((tn, ci)));
                    assert(s0.metas()[tn].file_type == FileType::RegularFile);
                }
            }
            lemma_removed_entry(s0, s2, d, nb);
        }
        Ok(())
    }
}

/// From the net effect of unlinking the entry named `nb` — the maps as
/// `removed_entry` shapes them — the store's invariants follow again.
#[verifier::rlimit(100)]
proof fn lemma_removed_entry(s0: Storage, s2: Storage, d: u64, nb: Seq<u8>)
    requires
        s0.store_ok(),
        s0.metas().contains_key(d),
        s0.metas()[d].file_type == FileType::Directory,
        s0.dir_has_name(d, nb),
        ({
            let l = s0.lists()[d];
            let k = s0.dir_name_index(d, nb);
            let i = l[k];
            let tn = s0.dir_lookup(d, nb);
            let l2 = l.remove(k);
            &&& (s0.metas()[tn].file_type == FileType::Directory ==> s0.lists()[tn].len() == 0)
            &&& s2.metas() == s0.metas().insert(
                d,
                (Metadata {
                    size: l2.len() as u64,
                    first_dir_entry: if l2.len() == 0 {
                        None
                    } else {
                        Some(l2[0])
                    },
                    last_dir_entry: if l2.len() == 0 {
                        None
                    } else {
                        Some(l2[l2.len() - 1])
                    },
                    ..s0.metas()[d]
                }),
            ).remove(tn)
            &&& s2.lists() == (if s0.metas()[tn].file_type == FileType::Directory {
                s0.lists().insert(d, l2).remove(tn)
            } else {
                s0.lists().insert(d, l2)
            })
            &&& !s2.entry_map().contains_key((d, i))
            &&& forall|q: (u64, u32)|
                q != (d, i) ==> (#[trigger] s2.entry_map().contains_key(q)
                    <==> s0.entry_map().contains_key(q))
            &&& forall|q: (u64, u32)|
                q != (d, i) && (k == 0 || q != (d, l[k - 1])) && (k == l.len() - 1 || q != (
                d,
                l[k + 1],
                )) && s0.entry_map().contains_key(q) ==> #[trigger] s2.entry_map()[q]
                    == s0.entry_map()[q]
            &&& (k > 0 ==> s2.entry_map()[(d, l[k - 1])] == (DirEntry {
                next_entry: if k == l.len() - 1 {
                    None
                } else {
                    Some(l[k + 1])
                },
                ..s0.entry_map()[(d, l[k - 1])]
            }))
            &&& (k < l.len() - 1 ==> s2.entry_map()[(d, l[k + 1])] == (DirEntry {
                prev_entry: if k == 0 {
                    None
                } else {
                    Some(l[k - 1])
                },
                ..s0.entry_map()[(d, l[k + 1])]
            }))
            &&& forall|ci: u32| !(#[trigger] s2.chunk_map().contains_key((tn, ci)))
            &&& forall|q: (u64, u32)|
                q.0 != tn ==> (#[trigger] s2.chunk_map().contains_key(q)
                    <==> s0.chunk_map().contains_key(q))
            &&& forall|q: (u64, u32)|
                q.0 != tn && s0.chunk_map().contains_key(q) ==> #[trigger] s2.chunk_map()[q]
                    == s0.chunk_map()[q]
            &&& s2.next_node_id() == s0.next_node_id()
            &&& s2.next_entry_index() == s0.next_entry_index()
        }),
    ensures
        removed_entry(s0, s2, d, nb),
{
    let l = s0.lists()[d];
    let len = l.len() as int;
    let k = s0.dir_name_index(d, nb);
    let i = l[k];
    let tn = s0.dir_lookup(d, nb);
    let l2 = l.remove(k);
    assert(s0.dir_ok(d));
    assert(0 <= k < len && s0.entry_map()[(d, l[k])].name@ == nb);
    assert(s0.entry_map().contains_key((d, l[k])));
    assert(s0.metas().contains_key(tn));
    assert(tn != d);
    assert(l2.len() == len - 1);
    assert forall|j: int| 0 <= j < l2.len() implies #[trigger] l2[j] == (if j < k {
        l[j]
    } else {
        l[j + 1]
    }) by {}
    assert(s2.lists()[d] == l2);
    // entries of d other than the removed one survive; only the
    // neighbors' links changed
    assert forall|jj: int| 0 <= jj < len && jj != k implies s2.entry_map().contains_key(
        (d, #[trigger] l[jj]),
    ) && s2.entry_map()[(d, l[jj])].name == s0.entry_map()[(d, l[jj])].name
        && s2.entry_map()[(d, l[jj])].node == s0.entry_map()[(d, l[jj])].node by {
        assert(l[jj] != l[k]);
    }
    assert(s2.dir_ok(d)) by {
        assert(l2.no_duplicates()) by {
            assert forall|k1: int, k2: int|
                0 <= k1 < l2.len() && 0 <= k2 < l2.len() && k1 != k2 implies l2[k1] != l2[k2] by {}
        }
        assert forall|j: int| 0 <= j < l2.len() implies (#[trigger] s2.entry_map()[
            (d, l2[j])
        ]).prev_entry == (if j == 0 {
            Option::<u32>::None
        } else {
            Some(l2[j - 1])
        }) && (s2.entry_map()[(d, l2[j])]).next_entry == (if j == l2.len() - 1 {
            Option::<u32>::None
        } else {
            Some(l2[j + 1])
        }) by {
            let jj: int = if j < k {
                j
            } else {
                j + 1
            };
            assert(l2[j] == l[jj] && jj != k);
        }
        assert forall|i2: u32| #[trigger] s2.entry_map().contains_key((d, i2)) implies l2.contains(
            i2,
        ) by {
            assert(s0.entry_map().contains_key((d, i2)));
            assert(l.contains(i2));
            let j = choose|j: int| 0 <= j < l.len() && l[j] == i2;
            assert(j != k);
            if j < k {
                assert(l2[j] == i2);
            } else {
                assert(l2[j - 1] == i2);
            }
        }
    }
    // the removed name is no longer bound
    assert(!s2.dir_has_name(d, nb)) by {
        if s2.dir_has_name(d, nb) {
            let j = choose|j: int|
                0 <= j < s2.lists()[d].len() && #[trigger] s2.entry_map()[
                    (d, s2.lists()[d][j])
                ].name@ == nb;
            let jj: int = if j < k {
                j
            } else {
                j + 1
            };
            assert(s0.entry_map()[(d, l[jj])].name@ == nb);
            assert(jj != k);
            assert(s0.entry_map()[(d, l[k])].name@ == nb);
        }
    }
    // every other directory and file is untouched
    assert forall|n2: u64|
        s2.metas().contains_key(n2) && s2.metas()[n2].file_type == FileType::Directory && n2
            != d implies #[trigger] s2.dir_ok(n2) by {
        assert(s0.metas().contains_key(n2));
        assert(s0.dir_ok(n2));
        assert forall|kk: int| 0 <= kk < s0.lists()[n2].len() implies #[trigger] s0.entry_map()[
            (n2, s0.lists()[n2][kk])
        ].node != tn by {
            assert(s0.entry_map().contains_key((n2, s0.lists()[n2][kk])));
            if s0.entry_map()[(n2, s0.lists()[n2][kk])].node == tn {
                assert(s0.lists()[n2][kk] == l[k] && n2 == d);
            }
        }
        crate::storage::lemma_dir_ok_preserved_removal(s0, s2, n2, tn);
    }
    assert forall|n2: u64|
        s2.metas().contains_key(n2) && s2.metas()[n2].file_type == FileType::RegularFile
            implies #[trigger] s2.file_ok(n2) by {
        assert(s0.metas().contains_key(n2));
        assert(n2 != tn && n2 != d);
        assert(s0.file_ok(n2));
        crate::storage::lemma_file_ok_preserved(s0, s2, n2);
    }
    // belonging and uniqueness clauses of the whole store
    assert forall|q: (u64, u32)| #[trigger] s2.entry_map().contains_key(
        q,
    ) implies s2.metas().contains_key(q.0) && s2.metas()[q.0].file_type == FileType::Directory
        && s2.entry_map()[q].node != crate::storage::ROOT_NODE by {
        assert(s0.entry_map().contains_key(q));
        assert(q.0 != tn) by {
            if q.0 == tn {
                assert(s0.metas()[tn].file_type == FileType::Directory);
                assert(s0.dir_ok(tn));
                assert(s0.lists()[tn].len() == 0);
                assert(s0.lists()[tn].contains(q.1));
            }
        }
        assert(s2.entry_map()[q].node == s0.entry_map()[q].node);
    }
    assert forall|q: (u64, u32)| #[trigger] s2.chunk_map().contains_key(
        q,
    ) implies s2.metas().contains_key(q.0) && s2.metas()[q.0].file_type == FileType::RegularFile by {
        if q.0 == tn {
            assert(!s2.chunk_map().contains_key((tn, q.1)));
            assert((tn, q.1) == q);
        }
        assert(q.0 != tn);
        assert(s0.chunk_map().contains_key(q));
        assert(s0.metas()[q.0].file_type == FileType::RegularFile);
        assert(q.0 != d);
    }
    assert forall|d2: u64| #[trigger] s2.lists().contains_key(d2) implies s2.metas().contains_key(
        d2,
    ) && s2.metas()[d2].file_type == FileType::Directory by {
        if d2 != d {
            assert(s0.lists().contains_key(d2));
            assert(d2 != tn);
        }
    }
    assert forall|q1: (u64, u32), q2: (u64, u32)|
        #[trigger] s2.entry_map().contains_key(q1) && #[trigger] s2.entry_map().contains_key(q2)
            && q1 != q2 implies s2.entry_map()[q1].node != s2.entry_map()[q2].node by {
        assert(s0.entry_map().contains_key(q1) && s0.entry_map().contains_key(q2));
        assert(s2.entry_map()[q1].node == s0.entry_map()[q1].node);
        assert(s2.entry_map()[q2].node == s0.entry_map()[q2].node);
    }
    assert(s2.store_ok());
}

} // verus!
