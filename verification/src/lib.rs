//! An embeddable virtual file system: files, directories, file descriptors
//! and read/write/seek semantics over a key-addressable backing store.
#![allow(unused_imports)]

pub mod error;
pub mod types;
pub mod storage;
pub mod file;
pub mod dir;
pub mod fd;
pub mod fs;

pub use error::Error;
pub use types::{
    DirEntry, DirEntryIndex, FdStat, FileChunk, FileChunkIndex, FileName, FileSize, FileType,
    Metadata, Node, OpenFlags, Times, Whence, FILE_CHUNK_SIZE, MAX_FILE_NAME, MAX_FILE_SIZE,
};
pub use storage::{Storage, ROOT_NODE};
pub use file::File;
pub use dir::Dir;
pub use fd::{Fd, FdEntry, FdTable};
pub use fs::FileSystem;
