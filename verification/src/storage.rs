//! The key-addressable backing store: node metadata records, directory-entry
//! records keyed by directory and index, and fixed-size file-content chunks,
//! plus monotonic id allocation for new nodes and entries.
use crate::error::Error;
use crate::types::{
    DirEntry, DirEntryIndex, FileChunk, FileChunkIndex, FileSize, FileType, Metadata, Node, Times,
    MAX_FILE_SIZE,
};
use std::collections::HashMap;
use vstd::map::*;
use vstd::prelude::*;

verus! {

broadcast use vstd::std_specs::hash::group_hash_axioms, vstd::array::group_array_axioms;

/// The node id of the root directory.
pub const ROOT_NODE: u64 = 0;

/// Packs a (node, index) pair into one record key.
pub open spec fn pack_key(node: u64, index: u32) -> u128 {
    ((node as u128) << 32) | (index as u128)
}

/// Packed keys are distinct for distinct (node, index) pairs.
pub broadcast proof fn lemma_pack_key_injective(n1: u64, i1: u32, n2: u64, i2: u32)
    ensures
        #[trigger] pack_key(n1, i1) == #[trigger] pack_key(n2, i2) ==> n1 == n2 && i1 == i2,
{
    assert(((n1 as u128) << 32) | (i1 as u128) == ((n2 as u128) << 32) | (i2 as u128) ==> n1 == n2
        && i1 == i2) by (bit_vector);
}

/// Metadata for a freshly created node of the given type.
pub open spec fn initial_metadata(node: u64, file_type: FileType) -> Metadata {
    Metadata {
        node,
        file_type,
        link_count: 1,
        size: 0,
        times: Times { accessed: 0, modified: 0, created: 0 },
        first_dir_entry: None,
        last_dir_entry: None,
    }
}

/// The backing store. Everything the file system persists lives here:
/// one metadata record per node, one record per directory entry, and the
/// content chunks of regular files. Entry indices and node ids are handed
/// out monotonically and never reused while referenced.
pub struct Storage {
    next_node: u64,
    next_index: u32,
    metadata: HashMap<u64, Metadata>,
    entries: HashMap<u128, DirEntry>,
    chunks: HashMap<u128, FileChunk>,
    lists: Ghost<Map<u64, Seq<u32>>>,
}

impl Storage {
    /// The metadata records, by node.
    pub closed spec fn metas(self) -> Map<u64, Metadata> {
        self.metadata@
    }

    /// The directory-entry records, by directory node and entry index.
    pub closed spec fn entry_map(self) -> Map<(u64, u32), DirEntry> {
        Map::new(
            |p: (u64, u32)| self.entries@.contains_key(pack_key(p.0, p.1)),
            |p: (u64, u32)| self.entries@[pack_key(p.0, p.1)],
        )
    }

    /// The content chunks, by node and chunk index.
    pub closed spec fn chunk_map(self) -> Map<(u64, u32), FileChunk> {
        Map::new(
            |p: (u64, u32)| self.chunks@.contains_key(pack_key(p.0, p.1)),
            |p: (u64, u32)| self.chunks@[pack_key(p.0, p.1)],
        )
    }

    /// The next node id to be handed out.
    pub closed spec fn next_node_id(self) -> u64 {
        self.next_node
    }

    /// The next directory-entry index to be handed out.
    pub closed spec fn next_entry_index(self) -> u32 {
        self.next_index
    }

    /// For each directory, the indices of its entries in list order
    /// (head first). This is the abstraction the doubly linked entry
    /// list is held to.
    pub closed spec fn lists(self) -> Map<u64, Seq<u32>> {
        self.lists@
    }

    /// The byte a read observes at an absolute position of a node's content:
    /// the byte inside the addressed chunk, or zero where no chunk exists.
    pub open spec fn byte_at(self, node: u64, pos: int) -> u8 {
        let ci = (pos / 4096) as u32;
        let off = pos % 4096;
        if self.chunk_map().contains_key((node, ci)) {
            self.chunk_map()[(node, ci)].bytes@[off]
        } else {
            0
        }
    }

    /// A node's logical content: `size` bytes read chunk-wise.
    pub open spec fn content(self, node: u64) -> Seq<u8> {
        Seq::new(self.metas()[node].size as nat, |i: int| self.byte_at(node, i))
    }

    /// Well-formedness of a regular file's chunks: every byte at or past
    /// `size` reads back zero, and no chunk lies entirely past `size`.
    pub open spec fn file_ok(self, node: u64) -> bool {
        let size = self.metas()[node].size as int;
        &&& self.metas()[node].size <= MAX_FILE_SIZE
        &&& forall|p: int| size <= p < MAX_FILE_SIZE ==> #[trigger] self.byte_at(node, p) == 0
        &&& forall|ci: u32|
            #[trigger] self.chunk_map().contains_key((node, ci)) ==> (ci as int) * 4096 < size
    }

    /// Well-formedness of a directory: its recorded entry list matches the
    /// stored head/tail pointers and neighbor links, entries are distinct,
    /// names are unique, every target node exists, and indices are below
    /// the allocation watermark.
    pub open spec fn dir_ok(self, d: u64) -> bool {
        let m = self.metas()[d];
        let l = self.lists()[d];
        &&& self.metas().contains_key(d)
        &&& m.file_type == FileType::Directory
        &&& self.lists().contains_key(d)
        &&& m.size == l.len()
        &&& m.first_dir_entry == (if l.len() == 0 {
            Option::<u32>::None
        } else {
            Some(l[0])
        })
        &&& m.last_dir_entry == (if l.len() == 0 {
            Option::<u32>::None
        } else {
            Some(l[l.len() - 1])
        })
        &&& l.no_duplicates()
        &&& l.len() < self.next_entry_index()
        &&& forall|k: int| 0 <= k < l.len() ==> #[trigger] l[k] < self.next_entry_index()
        &&& forall|k: int| 0 <= k < l.len() ==> self.entry_map().contains_key((d, #[trigger] l[k]))
        &&& forall|k: int|
            0 <= k < l.len() ==> #[trigger] self.entry_map()[(d, l[k])].prev_entry == (if k == 0 {
                Option::<u32>::None
            } else {
                Some(l[k - 1])
            })
        &&& forall|k: int|
            0 <= k < l.len() ==> #[trigger] self.entry_map()[(d, l[k])].next_entry == (if k == l.len()
                - 1 {
                Option::<u32>::None
            } else {
                Some(l[k + 1])
            })
        &&& forall|k1: int, k2: int|
            0 <= k1 < l.len() && 0 <= k2 < l.len() && k1 != k2
                ==> (#[trigger] self.entry_map()[(d, l[k1])].name)@
                != (#[trigger] self.entry_map()[(d, l[k2])].name)@
        &&& forall|k: int|
            0 <= k < l.len() ==> self.metas().contains_key(
                #[trigger] self.entry_map()[(d, l[k])].node,
            )
        &&& forall|k: int| 0 <= k < l.len() ==> #[trigger] self.entry_map()[(d, l[k])].node != d
        &&& forall|i: u32| #[trigger] self.entry_map().contains_key((d, i)) ==> l.contains(i)
    }

    /// Whether the directory holds an entry with this exact name.
    pub open spec fn dir_has_name(self, d: u64, name: Seq<u8>) -> bool {
        exists|k: int|
            0 <= k < self.lists()[d].len() && #[trigger] self.entry_map()[(d, self.lists()[d][k])].name@
                == name
    }

    /// The list position of the entry with this name, where one exists.
    pub open spec fn dir_name_index(self, d: u64, name: Seq<u8>) -> int {
        choose|k: int|
            0 <= k < self.lists()[d].len() && #[trigger] self.entry_map()[(d, self.lists()[d][k])].name@
                == name
    }

    /// The node an entry with this name binds, where one exists.
    pub open spec fn dir_lookup(self, d: u64, name: Seq<u8>) -> u64 {
        self.entry_map()[(d, self.lists()[d][self.dir_name_index(d, name)])].node
    }

    /// Well-formedness of the whole store: the root directory exists, ids
    /// are below their watermarks, every directory's list and every file's
    /// chunks are consistent, entries and chunks belong to nodes of the
    /// right kind, no entry targets the root or shares a target with
    /// another, and no node is a symbolic link.
    pub open spec fn store_ok(self) -> bool {
        &&& self.metas().contains_key(ROOT_NODE)
        &&& self.metas()[ROOT_NODE].file_type == FileType::Directory
        &&& forall|n: u64|
            #[trigger] self.metas().contains_key(n) ==> self.metas()[n].node == n && n
                < self.next_node_id() && self.metas()[n].link_count == 1
                && self.metas()[n].file_type != FileType::SymbolicLink
        &&& forall|n: u64|
            self.metas().contains_key(n) && self.metas()[n].file_type == FileType::Directory
                ==> #[trigger] self.dir_ok(n)
        &&& forall|n: u64|
            self.metas().contains_key(n) && self.metas()[n].file_type == FileType::RegularFile
                ==> #[trigger] self.file_ok(n)
        &&& forall|q: (u64, u32)|
            #[trigger] self.entry_map().contains_key(q) ==> self.metas().contains_key(q.0)
                && self.metas()[q.0].file_type == FileType::Directory
        &&& forall|q: (u64, u32)|
            #[trigger] self.chunk_map().contains_key(q) ==> self.metas().contains_key(q.0)
                && self.metas()[q.0].file_type == FileType::RegularFile
        &&& forall|d: u64|
            #[trigger] self.lists().contains_key(d) ==> self.metas().contains_key(d)
                && self.metas()[d].file_type == FileType::Directory
        &&& forall|q: (u64, u32)|
            #[trigger] self.entry_map().contains_key(q) ==> self.entry_map()[q].node != ROOT_NODE
        &&& forall|q1: (u64, u32), q2: (u64, u32)|
            #[trigger] self.entry_map().contains_key(q1) && #[trigger] self.entry_map().contains_key(
                q2,
            ) && q1 != q2 ==> self.entry_map()[q1].node != self.entry_map()[q2].node
    }

    /// Both stores expose the same records, lists and watermarks.
    pub open spec fn same_store(self, other: Storage) -> bool {
        &&& other.metas() == self.metas()
        &&& other.entry_map() == self.entry_map()
        &&& other.chunk_map() == self.chunk_map()
        &&& other.lists() == self.lists()
        &&& other.next_node_id() == self.next_node_id()
        &&& other.next_entry_index() == self.next_entry_index()
    }

    /// A fresh store holding only the root directory.
    pub fn new() -> (s: Storage)
        ensures
            s.metas() == Map::<u64, Metadata>::empty().insert(
                ROOT_NODE,
                initial_metadata(ROOT_NODE, FileType::Directory),
            ),
            s.entry_map() == Map::<(u64, u32), DirEntry>::empty(),
            s.chunk_map() == Map::<(u64, u32), FileChunk>::empty(),
            s.lists() == Map::<u64, Seq<u32>>::empty().insert(ROOT_NODE, Seq::<u32>::empty()),
            s.next_node_id() == 1,
            s.next_entry_index() == 1,
    {
        let mut metadata: HashMap<u64, Metadata> = HashMap::new();
        let root = Metadata {
            node: ROOT_NODE,
            file_type: FileType::Directory,
            link_count: 1,
            size: 0,
            times: Times { accessed: 0, modified: 0, created: 0 },
            first_dir_entry: None,
            last_dir_entry: None,
        };
        metadata.insert(ROOT_NODE, root);
        let s = Storage {
            next_node: 1,
            next_index: 1,
            metadata,
            entries: HashMap::new(),
            chunks: HashMap::new(),
            lists: Ghost(Map::<u64, Seq<u32>>::empty().insert(ROOT_NODE, Seq::<u32>::empty())),
        };
        proof {
            assert(s.entry_map() =~= Map::<(u64, u32), DirEntry>::empty());
            assert(s.chunk_map() =~= Map::<(u64, u32), FileChunk>::empty());
        }
        s
    }

    /// The root node; stable across calls, always a directory.
    pub fn root_node(&self) -> (n: Node)
        ensures
            n == ROOT_NODE,
    {
        ROOT_NODE
    }

    /// Fetches a node's metadata record.
    pub fn get_metadata(&self, node: Node) -> (res: Result<Metadata, Error>)
        ensures
            match res {
                Ok(m) => self.metas().contains_key(node) && m == self.metas()[node],
                Err(e) => e == Error::NotFound && !self.metas().contains_key(node),
            },
    {
        match self.metadata.get(&node) {
            Some(m) => Ok(*m),
            None => Err(Error::NotFound),
        }
    }

    /// Replaces a node's metadata record.
    pub fn put_metadata(&mut self, node: Node, m: Metadata)
        ensures
            final(self).metas() == old(self).metas().insert(node, m),
            final(self).entry_map() == old(self).entry_map(),
            final(self).chunk_map() == old(self).chunk_map(),
            forall|n2: u64, p: int| #[trigger] final(self).byte_at(n2, p) == old(self).byte_at(n2, p),
            final(self).lists() == old(self).lists(),
            final(self).next_node_id() == old(self).next_node_id(),
            final(self).next_entry_index() == old(self).next_entry_index(),
    {
        self.metadata.insert(node, m);
        proof {
            assert(self.entry_map() =~= old(self).entry_map());
            assert(self.chunk_map() =~= old(self).chunk_map());
        }
    }

    /// Removes a node's metadata record.
    pub fn remove_metadata(&mut self, node: Node)
        ensures
            final(self).metas() == old(self).metas().remove(node),
            final(self).entry_map() == old(self).entry_map(),
            final(self).chunk_map() == old(self).chunk_map(),
            forall|n2: u64, p: int| #[trigger] final(self).byte_at(n2, p) == old(self).byte_at(n2, p),
            final(self).lists() == old(self).lists(),
            final(self).next_node_id() == old(self).next_node_id(),
            final(self).next_entry_index() == old(self).next_entry_index(),
    {
        self.metadata.remove(&node);
        proof {
            assert(self.entry_map() =~= old(self).entry_map());
            assert(self.chunk_map() =~= old(self).chunk_map());
        }
    }

    /// Hands out a fresh node id.
    pub fn new_node_id(&mut self) -> (n: Node)
        requires
            old(self).next_node_id() < u64::MAX,
        ensures
            n == old(self).next_node_id(),
            final(self).next_node_id() == old(self).next_node_id() + 1,
            final(self).metas() == old(self).metas(),
            final(self).entry_map() == old(self).entry_map(),
            final(self).chunk_map() == old(self).chunk_map(),
            forall|n2: u64, p: int| #[trigger] final(self).byte_at(n2, p) == old(self).byte_at(n2, p),
            final(self).lists() == old(self).lists(),
            final(self).next_entry_index() == old(self).next_entry_index(),
    {
        let n = self.next_node;
        self.next_node = self.next_node + 1;
        n
    }

    /// Hands out a fresh directory-entry index.
    pub fn new_entry_index(&mut self) -> (i: DirEntryIndex)
        requires
            old(self).next_entry_index() < u32::MAX,
        ensures
            i == old(self).next_entry_index(),
            final(self).next_entry_index() == old(self).next_entry_index() + 1,
            final(self).metas() == old(self).metas(),
            final(self).entry_map() == old(self).entry_map(),
            final(self).chunk_map() == old(self).chunk_map(),
            forall|n2: u64, p: int| #[trigger] final(self).byte_at(n2, p) == old(self).byte_at(n2, p),
            final(self).lists() == old(self).lists(),
            final(self).next_node_id() == old(self).next_node_id(),
    {
        let i = self.next_index;
        self.next_index = self.next_index + 1;
        i
    }

    /// Fetches one directory-entry record by directory and index.
    pub fn get_direntry(&self, d: Node, index: DirEntryIndex) -> (res: Result<DirEntry, Error>)
        ensures
            match res {
                Ok(e) => self.entry_map().contains_key((d, index)) && e == self.entry_map()[(d, index)],
                Err(e) => e == Error::NotFound && !self.entry_map().contains_key((d, index)),
            },
    {
        let key: u128 = ((d as u128) << 32) | (index as u128);
        match self.entries.get(&key) {
            Some(e) => Ok(*e),
            None => Err(Error::NotFound),
        }
    }

    /// Stores one directory-entry record.
    pub fn put_direntry(&mut self, d: Node, index: DirEntryIndex, e: DirEntry)
        ensures
            final(self).entry_map() == old(self).entry_map().insert((d, index), e),
            final(self).metas() == old(self).metas(),
            final(self).chunk_map() == old(self).chunk_map(),
            forall|n2: u64, p: int| #[trigger] final(self).byte_at(n2, p) == old(self).byte_at(n2, p),
            final(self).lists() == old(self).lists(),
            final(self).next_node_id() == old(self).next_node_id(),
            final(self).next_entry_index() == old(self).next_entry_index(),
    {
        let key: u128 = ((d as u128) << 32) | (index as u128);
        self.entries.insert(key, e);
        proof {
            broadcast use lemma_pack_key_injective;

            assert_maps_equal!(self.entry_map(), old(self).entry_map().insert((d, index), e), p => {
                lemma_pack_key_injective(p.0, p.1, d, index);
            });
            assert(self.chunk_map() =~= old(self).chunk_map());
        }
    }

    /// Removes one directory-entry record.
    pub fn remove_direntry(&mut self, d: Node, index: DirEntryIndex)
        ensures
            final(self).entry_map() == old(self).entry_map().remove((d, index)),
            final(self).metas() == old(self).metas(),
            final(self).chunk_map() == old(self).chunk_map(),
            forall|n2: u64, p: int| #[trigger] final(self).byte_at(n2, p) == old(self).byte_at(n2, p),
            final(self).lists() == old(self).lists(),
            final(self).next_node_id() == old(self).next_node_id(),
            final(self).next_entry_index() == old(self).next_entry_index(),
    {
        let key: u128 = ((d as u128) << 32) | (index as u128);
        self.entries.remove(&key);
        proof {
            broadcast use lemma_pack_key_injective;

            assert_maps_equal!(self.entry_map(), old(self).entry_map().remove((d, index)), p => {
                lemma_pack_key_injective(p.0, p.1, d, index);
            });
            assert(self.chunk_map() =~= old(self).chunk_map());
        }
    }

    /// Records a directory's entry list abstraction.
    pub fn set_list(&mut self, d: Node, l: Ghost<Seq<u32>>)
        ensures
            final(self).lists() == old(self).lists().insert(d, l@),
            final(self).metas() == old(self).metas(),
            final(self).entry_map() == old(self).entry_map(),
            final(self).chunk_map() == old(self).chunk_map(),
            forall|n2: u64, p: int| #[trigger] final(self).byte_at(n2, p) == old(self).byte_at(n2, p),
            final(self).next_node_id() == old(self).next_node_id(),
            final(self).next_entry_index() == old(self).next_entry_index(),
    {
        proof {
            self.lists@ = self.lists@.insert(d, l@);
        }
    }

    /// Drops a directory's entry list abstraction.
    pub fn remove_list(&mut self, d: Node)
        ensures
            final(self).lists() == old(self).lists().remove(d),
            final(self).metas() == old(self).metas(),
            final(self).entry_map() == old(self).entry_map(),
            final(self).chunk_map() == old(self).chunk_map(),
            forall|n2: u64, p: int| #[trigger] final(self).byte_at(n2, p) == old(self).byte_at(n2, p),
            final(self).next_node_id() == old(self).next_node_id(),
            final(self).next_entry_index() == old(self).next_entry_index(),
    {
        proof {
            self.lists@ = self.lists@.remove(d);
        }
    }

    /// Reads the byte at an absolute position of a node's content.
    pub fn read_byte(&self, node: Node, pos: FileSize) -> (b: u8)
        requires
            pos < MAX_FILE_SIZE,
        ensures
            b == self.byte_at(node, pos as int),
    {
        let ci: u32 = (pos / 4096) as u32;
        let off: usize = (pos % 4096) as usize;
        let key: u128 = ((node as u128) << 32) | (ci as u128);
        match self.chunks.get(&key) {
            Some(c) => c.bytes[off],
            None => 0,
        }
    }

    /// Writes the byte at an absolute position of a node's content,
    /// materializing the addressed chunk (zero-filled) where it is absent.
    pub fn write_byte(&mut self, node: Node, pos: FileSize, b: u8)
        requires
            pos < MAX_FILE_SIZE,
        ensures
            ({
                let ci = ((pos as int) / 4096) as u32;
                &&& final(self).chunk_map().contains_key((node, ci))
                &&& final(self).chunk_map() =~= old(self).chunk_map().insert(
                    (node, ci),
                    final(self).chunk_map()[(node, ci)],
                )
                &&& forall|p: int|
                    0 <= p < MAX_FILE_SIZE && p != pos ==> #[trigger] final(self).byte_at(node, p)
                        == old(self).byte_at(node, p)
                &&& final(self).byte_at(node, pos as int) == b
                &&& forall|n2: u64, p: int| n2 != node ==> #[trigger] final(self).byte_at(n2, p) == old(self).byte_at(n2, p)
            }),
            final(self).metas() == old(self).metas(),
            final(self).entry_map() == old(self).entry_map(),
            final(self).lists() == old(self).lists(),
            final(self).next_node_id() == old(self).next_node_id(),
            final(self).next_entry_index() == old(self).next_entry_index(),
    {
        let ci: u32 = (pos / 4096) as u32;
        let off: usize = (pos % 4096) as usize;
        let key: u128 = ((node as u128) << 32) | (ci as u128);
        let mut chunk: FileChunk = match self.chunks.get(&key) {
            Some(c) => *c,
            None => FileChunk::default(),
        };
        chunk.bytes[off] = b;
        self.chunks.insert(key, chunk);
        proof {
            broadcast use lemma_pack_key_injective;

            assert(self.entry_map() =~= old(self).entry_map());
            assert_maps_equal!(self.chunk_map(), old(self).chunk_map().insert((node, ci), chunk), p => {
                lemma_pack_key_injective(p.0, p.1, node, ci);
            });
            lemma_pos_chunk(pos as int);
            assert forall|p: int| 0 <= p < MAX_FILE_SIZE && p != pos implies #[trigger] self.byte_at(
                node,
                p,
            ) == old(self).byte_at(node, p) by {
                lemma_pos_chunk(p);
                if (p / 4096) as u32 == ci {
                    assert(p % 4096 != pos as int % 4096) by {
                        vstd::arithmetic::div_mod::lemma_fundamental_div_mod(p, 4096);
                        vstd::arithmetic::div_mod::lemma_fundamental_div_mod(pos as int, 4096);
                    };
                }
            }
        }
    }

    /// Removes one content chunk.
    pub fn remove_chunk(&mut self, node: Node, ci: FileChunkIndex)
        ensures
            final(self).chunk_map() == old(self).chunk_map().remove((node, ci)),
            final(self).metas() == old(self).metas(),
            final(self).entry_map() == old(self).entry_map(),
            final(self).lists() == old(self).lists(),
            final(self).next_node_id() == old(self).next_node_id(),
            final(self).next_entry_index() == old(self).next_entry_index(),
    {
        let key: u128 = ((node as u128) << 32) | (ci as u128);
        self.chunks.remove(&key);
        proof {
            broadcast use lemma_pack_key_injective;

            assert(self.entry_map() =~= old(self).entry_map());
            assert_maps_equal!(self.chunk_map(), old(self).chunk_map().remove((node, ci)), p => {
                lemma_pack_key_injective(p.0, p.1, node, ci);
            });
        }
    }
}

/// For a position below the addressable bound, the chunk index fits in
/// 32 bits and the in-chunk offset in the chunk size.
pub proof fn lemma_pos_chunk(pos: int)
    requires
        0 <= pos < MAX_FILE_SIZE,
    ensures
        0 <= pos / 4096 < 4294967296,
        0 <= pos % 4096 < 4096,
        pos == (pos / 4096) * 4096 + pos % 4096,
{
    vstd::arithmetic::div_mod::lemma_fundamental_div_mod(pos, 4096);
    assert(pos / 4096 < 4294967296) by (nonlinear_arith)
        requires
            0 <= pos < 4096 * 4294967296,
    ;
}

/// A directory's well-formedness carries over to a store that keeps its
/// metadata record, its list, and all of its entry records.
pub proof fn lemma_dir_ok_preserved(s1: Storage, s2: Storage, d: u64)
    requires
        s1.dir_ok(d),
        s2.metas().contains_key(d),
        s2.metas()[d].size == s1.metas()[d].size,
        s2.metas()[d].file_type == s1.metas()[d].file_type,
        s2.metas()[d].first_dir_entry == s1.metas()[d].first_dir_entry,
        s2.metas()[d].last_dir_entry == s1.metas()[d].last_dir_entry,
        s2.lists().contains_key(d),
        s2.lists()[d] == s1.lists()[d],
        s2.next_entry_index() >= s1.next_entry_index(),
        forall|i: u32|
            #[trigger] s2.entry_map().contains_key((d, i)) <==> s1.entry_map().contains_key((d, i)),
        forall|i: u32|
            s1.entry_map().contains_key((d, i)) ==> #[trigger] s2.entry_map()[(d, i)]
                == s1.entry_map()[(d, i)],
        forall|n: u64| s1.metas().contains_key(n) ==> #[trigger] s2.metas().contains_key(n),
    ensures
        s2.dir_ok(d),
{
    let l = s1.lists()[d];
    assert forall|k: int| 0 <= k < l.len() implies s2.entry_map().contains_key(
        (d, #[trigger] l[k]),
    ) && s2.entry_map()[(d, l[k])] == s1.entry_map()[(d, l[k])] by {
        assert(s1.entry_map().contains_key((d, l[k])));
    }
}

/// A directory's well-formedness carries over to a store from which one
/// node — not this directory and not any of its targets — was dropped,
/// while the directory's metadata, list and entry records survive.
pub proof fn lemma_dir_ok_preserved_removal(s1: Storage, s2: Storage, d: u64, excl: u64)
    requires
        s1.dir_ok(d),
        s2.metas().contains_key(d),
        s2.metas()[d] == s1.metas()[d],
        s2.lists().contains_key(d),
        s2.lists()[d] == s1.lists()[d],
        s2.next_entry_index() >= s1.next_entry_index(),
        forall|i: u32|
            #[trigger] s2.entry_map().contains_key((d, i)) <==> s1.entry_map().contains_key((d, i)),
        forall|i: u32|
            s1.entry_map().contains_key((d, i)) ==> #[trigger] s2.entry_map()[(d, i)]
                == s1.entry_map()[(d, i)],
        forall|n: u64|
            s1.metas().contains_key(n) && n != excl ==> #[trigger] s2.metas().contains_key(n),
        forall|k: int|
            0 <= k < s1.lists()[d].len() ==> #[trigger] s1.entry_map()[(d, s1.lists()[d][k])].node
                != excl,
    ensures
        s2.dir_ok(d),
{
    let l = s1.lists()[d];
    assert forall|k: int| 0 <= k < l.len() implies s2.entry_map().contains_key(
        (d, #[trigger] l[k]),
    ) && s2.entry_map()[(d, l[k])] == s1.entry_map()[(d, l[k])] by {
        assert(s1.entry_map().contains_key((d, l[k])));
    }
    assert forall|k: int| 0 <= k < l.len() implies s2.metas().contains_key(
        #[trigger] s2.entry_map()[(d, l[k])].node,
    ) by {
        assert(s1.entry_map()[(d, l[k])].node != excl);
        assert(s1.metas().contains_key(s1.entry_map()[(d, l[k])].node));
    }
}

/// A file's well-formedness carries over to a store that keeps its size
/// and all of its chunks.
pub proof fn lemma_file_ok_preserved(s1: Storage, s2: Storage, n: u64)
    requires
        s1.file_ok(n),
        s2.metas()[n].size == s1.metas()[n].size,
        forall|ci: u32|
            #[trigger] s2.chunk_map().contains_key((n, ci)) <==> s1.chunk_map().contains_key(
                (n, ci),
            ),
        forall|ci: u32|
            s1.chunk_map().contains_key((n, ci)) ==> #[trigger] s2.chunk_map()[(n, ci)]
                == s1.chunk_map()[(n, ci)],
    ensures
        s2.file_ok(n),
        forall|p: int| 0 <= p < MAX_FILE_SIZE ==> #[trigger] s2.byte_at(n, p) == s1.byte_at(n, p),
{
    assert forall|p: int| 0 <= p < MAX_FILE_SIZE implies #[trigger] s2.byte_at(n, p) == s1.byte_at(
        n,
        p,
    ) by {
        lemma_pos_chunk(p);
    }
}

/// The whole store's well-formedness survives a change that touches one
/// regular file's content and size alone.
pub proof fn lemma_store_ok_after_file_change(s1: Storage, s2: Storage, node: u64, m2: Metadata)
    requires
        s1.store_ok(),
        s1.metas().contains_key(node),
        s1.metas()[node].file_type == FileType::RegularFile,
        m2 == (Metadata { size: m2.size, ..s1.metas()[node] }),
        s2.metas() == s1.metas().insert(node, m2),
        s2.file_ok(node),
        s2.entry_map() == s1.entry_map(),
        s2.lists() == s1.lists(),
        s2.next_node_id() == s1.next_node_id(),
        s2.next_entry_index() == s1.next_entry_index(),
        forall|q: (u64, u32)|
            q.0 != node ==> (#[trigger] s2.chunk_map().contains_key(q)
                <==> s1.chunk_map().contains_key(q)),
        forall|q: (u64, u32)|
            q.0 != node && s1.chunk_map().contains_key(q) ==> #[trigger] s2.chunk_map()[q]
                == s1.chunk_map()[q],
        forall|ci: u32|
            #[trigger] s2.chunk_map().contains_key((node, ci)) ==> s1.chunk_map().contains_key(
                (node, ci),
            ) || (ci as int) * 4096 < m2.size,
    ensures
        s2.store_ok(),
{
    assert forall|n2: u64|
        s2.metas().contains_key(n2) && s2.metas()[n2].file_type == FileType::Directory
            implies #[trigger] s2.dir_ok(n2) by {
        assert(s1.metas().contains_key(n2));
        assert(n2 != node);
        assert(s1.dir_ok(n2));
        lemma_dir_ok_preserved(s1, s2, n2);
    }
    assert forall|n2: u64|
        s2.metas().contains_key(n2) && s2.metas()[n2].file_type == FileType::RegularFile && n2
            != node implies #[trigger] s2.file_ok(n2) by {
        assert(s1.metas().contains_key(n2));
        assert(s1.file_ok(n2));
        lemma_file_ok_preserved(s1, s2, n2);
    }
    assert forall|q: (u64, u32)| #[trigger] s2.chunk_map().contains_key(
        q,
    ) implies s2.metas().contains_key(q.0) && s2.metas()[q.0].file_type
        == FileType::RegularFile by {
        if q.0 != node {
            assert(s1.chunk_map().contains_key(q));
        }
    }
    assert forall|q1: (u64, u32), q2: (u64, u32)|
        #[trigger] s2.entry_map().contains_key(q1) && #[trigger] s2.entry_map().contains_key(q2)
            && q1 != q2 implies s2.entry_map()[q1].node != s2.entry_map()[q2].node by {
        assert(s1.entry_map().contains_key(q1) && s1.entry_map().contains_key(q2));
    }
}

/// Law: in a well-formed directory the doubly linked entry list is
/// consistent. The head has no predecessor and the tail no successor;
/// following `next_entry` from the head visits exactly the recorded
/// entries in creation order, and `prev_entry` retraces them backward;
/// and no two entries share a name.
pub proof fn lemma_dir_list_consistency(s: Storage, d: u64)
    requires
        s.dir_ok(d),
    ensures
        ({
            let l = s.lists()[d];
            let m = s.metas()[d];
            &&& m.first_dir_entry == (if l.len() == 0 {
                Option::<u32>::None
            } else {
                Some(l[0])
            })
            &&& m.last_dir_entry == (if l.len() == 0 {
                Option::<u32>::None
            } else {
                Some(l[l.len() - 1])
            })
            &&& forall|k: int|
                0 <= k < l.len() ==> (#[trigger] s.entry_map()[(d, l[k])]).next_entry == (if k
                    == l.len() - 1 {
                    Option::<u32>::None
                } else {
                    Some(l[k + 1])
                })
            &&& forall|k: int|
                0 <= k < l.len() ==> (#[trigger] s.entry_map()[(d, l[k])]).prev_entry == (if k
                    == 0 {
                    Option::<u32>::None
                } else {
                    Some(l[k - 1])
                })
            &&& forall|k1: int, k2: int|
                0 <= k1 < l.len() && 0 <= k2 < l.len() && k1 != k2
                    ==> (#[trigger] s.entry_map()[(d, l[k1])].name)@
                    != (#[trigger] s.entry_map()[(d, l[k2])].name)@
        }),
{
}

} // verus!
