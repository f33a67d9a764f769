use crate::error::Error;
use vstd::prelude::*;
use vstd::string::StringSliceAdditionalSpecFns;

verus! {

broadcast use vstd::array::group_array_axioms;

/// Size in bytes of one file-content chunk.
pub const FILE_CHUNK_SIZE: usize = 4096;

/// Largest admissible file-name length in bytes.
pub const MAX_FILE_NAME: usize = 255;

/// Largest addressable file size: chunk indices are 32 bits wide.
pub const MAX_FILE_SIZE: u64 = 4096 * 4294967296;

/// The unique identifier of a node, which can be a file or a directory.
/// Also known as an inode number.
pub type Node = u64;

/// An integer type for representing file sizes and offsets.
pub type FileSize = u64;

/// An index of a file chunk.
pub type FileChunkIndex = u32;

/// An index of a directory entry.
pub type DirEntryIndex = u32;

/// The type of a node.
#[derive(Clone, Copy, Debug, PartialEq, Eq, Structural)]
pub enum FileType {
    Directory,
    RegularFile,
    SymbolicLink,
}

impl FileType {
    /// Decodes a node type from its on-disk code; rejects unknown codes.
    pub fn try_from_code(value: u8) -> (res: Result<FileType, Error>)
        ensures
            value == 3 ==> res == Result::<FileType, Error>::Ok(FileType::Directory),
            value == 4 ==> res == Result::<FileType, Error>::Ok(FileType::RegularFile),
            value == 7 ==> res == Result::<FileType, Error>::Ok(FileType::SymbolicLink),
            value != 3 && value != 4 && value != 7 ==> res == Result::<
                FileType,
                Error,
            >::Err(Error::InvalidFileType),
    {
        match value {
            3u8 => Ok(FileType::Directory),
            4u8 => Ok(FileType::RegularFile),
            7u8 => Ok(FileType::SymbolicLink),
            _ => Err(Error::InvalidFileType),
        }
    }

    /// Encodes a node type as its on-disk code.
    pub fn to_code(self) -> (code: u8)
        ensures
            self == FileType::Directory ==> code == 3,
            self == FileType::RegularFile ==> code == 4,
            self == FileType::SymbolicLink ==> code == 7,
    {
        match self {
            FileType::Directory => 3u8,
            FileType::RegularFile => 4u8,
            FileType::SymbolicLink => 7u8,
        }
    }
}

impl Default for FileType {
    fn default() -> (res: Self)
        ensures
            res == FileType::RegularFile,
    {
        FileType::RegularFile
    }
}

/// The time stats of a node: host-supplied timestamps.
#[derive(Clone, Copy, Debug)]
pub struct Times {
    pub accessed: u64,
    pub modified: u64,
    pub created: u64,
}

impl Default for Times {
    fn default() -> (res: Self)
        ensures
            res.accessed == 0 && res.modified == 0 && res.created == 0,
    {
        Times { accessed: 0, modified: 0, created: 0 }
    }
}

/// Per-node record tying a node to its type, link count, size, times and,
/// for directories, the head and tail of its entry list.
#[derive(Clone, Copy, Debug)]
pub struct Metadata {
    pub node: Node,
    pub file_type: FileType,
    pub link_count: u64,
    pub size: FileSize,
    pub times: Times,
    pub first_dir_entry: Option<DirEntryIndex>,
    pub last_dir_entry: Option<DirEntryIndex>,
}

/// The name of a file or a directory: a fixed-capacity byte buffer with an
/// explicit length, never longer than 255 bytes and never null-terminated.
#[derive(Clone, Copy, Debug)]
pub struct FileName {
    pub length: u8,
    pub bytes: [u8; 255],
}

impl View for FileName {
    type V = Seq<u8>;

    open spec fn view(&self) -> Seq<u8> {
        self.bytes@.take(self.length as int)
    }
}

impl Default for FileName {
    fn default() -> (res: Self)
        ensures
            res@ == Seq::<u8>::empty(),
    {
        let res = FileName { length: 0, bytes: [0u8; 255] };
        proof {
            assert(res@ =~= Seq::<u8>::empty());
        }
        res
    }
}

impl FileName {
    /// Builds a name from a string, rejecting names longer than 255 bytes.
    /// The unused tail of the buffer is zero.
    pub fn new(name: &str) -> (res: Result<FileName, Error>)
        ensures
            match res {
                Ok(f) => {
                    &&& name.spec_bytes().len() <= 255
                    &&& f@ == name.spec_bytes()
                    &&& forall|i: int|
                        f@.len() <= i < 255 ==> #[trigger] f.bytes@[i] == 0
                },
                Err(e) => e == Error::NameTooLong && name.spec_bytes().len() > 255,
            },
    {
        let name: &[u8] = name.as_bytes();
        let len: usize = name.len();
        if len > MAX_FILE_NAME {
            return Err(Error::NameTooLong);
        }
        let mut bytes: [u8; 255] = [0u8; 255];
        let mut i: usize = 0;
        while i < len
            invariant
                i <= len <= 255,
                name@.len() == len,
                forall|j: int| 0 <= j < i ==> bytes@[j] == name@[j],
                forall|j: int| i <= j < 255 ==> bytes@[j] == 0,
            decreases len - i,
        {
            bytes[i] = name[i];
            i += 1;
        }
        let f = FileName { length: len as u8, bytes };
        proof {
            assert(f@ =~= name@);
        }
        Ok(f)
    }

    /// Compares this name to a byte string: equal length and equal bytes.
    pub fn matches_bytes(&self, s: &[u8]) -> (b: bool)
        ensures
            b == (self@ == s@),
    {
        let len: usize = self.length as usize;
        if len != s.len() {
            proof {
                assert(self@.len() == len);
            }
            return false;
        }
        let mut i: usize = 0;
        while i < len
            invariant
                i <= len <= 255,
                s@.len() == len,
                self.length == len,
                forall|j: int| 0 <= j < i ==> self.bytes@[j] == s@[j],
            decreases len - i,
        {
            if self.bytes[i] != s[i] {
                proof {
                    assert(self@[i as int] != s@[i as int]);
                }
                return false;
            }
            i += 1;
        }
        proof {
            assert(self@ =~= s@);
        }
        true
    }
}

/// A fixed-size block of file content. A file's bytes are the logical
/// concatenation of chunks addressed by a zero-based chunk index.
#[derive(Clone, Copy, Debug)]
pub struct FileChunk {
    pub bytes: [u8; 4096],
}

impl Default for FileChunk {
    fn default() -> (res: Self)
        ensures
            forall|j: int| 0 <= j < 4096 ==> #[trigger] res.bytes@[j] == 0,
    {
        FileChunk { bytes: [0u8; 4096] }
    }
}

/// One named binding inside a directory: a name, the target node, and the
/// neighbor links of the directory's doubly linked entry list.
#[derive(Clone, Copy, Debug)]
pub struct DirEntry {
    pub name: FileName,
    pub node: Node,
    pub next_entry: Option<DirEntryIndex>,
    pub prev_entry: Option<DirEntryIndex>,
}

/// Per-descriptor open attributes, independent of the node's metadata.
#[derive(Clone, Copy, Debug)]
pub struct FdStat {
    pub flags: u16,
    pub rights_base: u64,
    pub rights_inheriting: u64,
}

impl Default for FdStat {
    fn default() -> (res: Self)
        ensures
            res.flags == 0 && res.rights_base == 0 && res.rights_inheriting == 0,
    {
        FdStat { flags: 0, rights_base: 0, rights_inheriting: 0 }
    }
}

/// Flags steering `open` and `open_or_create`.
#[derive(Clone, Copy, Debug, PartialEq, Eq, Structural)]
pub struct OpenFlags {
    pub create: bool,
    pub exclusive: bool,
    pub directory: bool,
    pub truncate: bool,
}

impl OpenFlags {
    /// No flag set.
    pub fn empty() -> (res: OpenFlags)
        ensures
            !res.create && !res.exclusive && !res.directory && !res.truncate,
    {
        OpenFlags { create: false, exclusive: false, directory: false, truncate: false }
    }
}

/// The origin of a seek.
#[derive(Clone, Copy, Debug, PartialEq, Eq, Structural)]
pub enum Whence {
    Start,
    Current,
    End,
}

} // verus!
