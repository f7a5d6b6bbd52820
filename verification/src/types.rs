//! Shared value types of the virtual filesystem: error kinds, metadata
//! snapshots, open options and raw archive entries.

use vstd::prelude::*;

verus! {

/// The error kinds a filesystem operation can report.
#[derive(Clone, Copy, Debug, PartialEq, Eq, Structural)]
pub enum VfsError {
    /// The path does not resolve under any eligible store.
    NotFound,
    /// The operation requires write capability on a read-only store.
    PermissionDenied,
    /// Directory creation collided with an existing file.
    AlreadyExists,
    /// The underlying storage reported an error not covered above.
    Io,
    /// The configuration convenience accessor failed.
    Config,
}

impl VfsError {
    /// A short human-readable name for the error kind.
    pub fn describe(&self) -> (r: &'static str)
        ensures
            r@ == self.spec_describe(),
    {
        match self {
            VfsError::NotFound => "not found",
            VfsError::PermissionDenied => "permission denied",
            VfsError::AlreadyExists => "already exists",
            VfsError::Io => "i/o failure",
            VfsError::Config => "config error",
        }
    }

    pub open spec fn spec_describe(self) -> Seq<char> {
        match self {
            VfsError::NotFound => "not found"@,
            VfsError::PermissionDenied => "permission denied"@,
            VfsError::AlreadyExists => "already exists"@,
            VfsError::Io => "i/o failure"@,
            VfsError::Config => "config error"@,
        }
    }
}

/// The result type of filesystem operations.
pub type VfsResult<T> = Result<T, VfsError>;

/// A snapshot of what a resolved path is: a file with a size, or a
/// directory.  Immutable once obtained and never cached across calls.
#[derive(Clone, Copy, Debug, PartialEq, Eq, Structural)]
pub struct Metadata {
    /// Whether the path resolved to a file (otherwise it is a directory).
    pub file: bool,
    /// The size of the file in bytes; zero for a directory.
    pub size: usize,
}

impl Metadata {
    /// Whether the path points at a file.
    pub fn is_file(&self) -> (b: bool)
        ensures
            b == self.file,
    {
        self.file
    }

    /// Whether the path points at a directory.
    pub fn is_dir(&self) -> (b: bool)
        ensures
            b == !self.file,
    {
        !self.file
    }

    /// The size in bytes of the file, zero for a directory.
    pub fn len(&self) -> (n: usize)
        ensures
            n == self.size,
    {
        self.size
    }
}

/// Options for opening a file: any caller-chosen combination of read,
/// write, create, append and truncate intent.
#[derive(Clone, Copy, Debug, PartialEq, Eq, Structural)]
pub struct OpenOptions {
    /// Open for reading.
    pub read: bool,
    /// Open for writing.
    pub write: bool,
    /// Create the file if it does not exist.
    pub create: bool,
    /// Position writes at the end of the existing contents.
    pub append: bool,
    /// Discard the existing contents on open.
    pub truncate: bool,
}

impl OpenOptions {
    /// Options with every intent switched off.
    pub fn new() -> (r: OpenOptions)
        ensures
            r == (OpenOptions { read: false, write: false, create: false, append: false, truncate: false }),
    {
        OpenOptions { read: false, write: false, create: false, append: false, truncate: false }
    }

    /// Switch read intent on or off.
    pub fn read(self, read: bool) -> (r: OpenOptions)
        ensures
            r == (OpenOptions { read, ..self }),
    {
        OpenOptions { read, ..self }
    }

    /// Switch write intent on or off.
    pub fn write(self, write: bool) -> (r: OpenOptions)
        ensures
            r == (OpenOptions { write, ..self }),
    {
        OpenOptions { write, ..self }
    }

    /// Switch create intent on or off.
    pub fn create(self, create: bool) -> (r: OpenOptions)
        ensures
            r == (OpenOptions { create, ..self }),
    {
        OpenOptions { create, ..self }
    }

    /// Switch append intent on or off.
    pub fn append(self, append: bool) -> (r: OpenOptions)
        ensures
            r == (OpenOptions { append, ..self }),
    {
        OpenOptions { append, ..self }
    }

    /// Switch truncate intent on or off.
    pub fn truncate(self, truncate: bool) -> (r: OpenOptions)
        ensures
            r == (OpenOptions { truncate, ..self }),
    {
        OpenOptions { truncate, ..self }
    }

    /// Whether these options imply mutation of the store.
    pub open spec fn spec_wants_write(self) -> bool {
        self.write || self.create || self.append || self.truncate
    }

    /// Whether these options imply mutation of the store.
    pub fn wants_write(&self) -> (b: bool)
        ensures
            b == self.spec_wants_write(),
    {
        self.write || self.create || self.append || self.truncate
    }
}

/// One entry of an archive, as handed over by whatever decoded the
/// archive: its name as stored, whether it is a directory entry, and its
/// uncompressed contents.
#[derive(Debug)]
pub struct RawEntry {
    /// The entry name as stored in the archive.
    pub name: String,
    /// Whether the entry denotes a directory.
    pub is_dir: bool,
    /// The uncompressed contents; empty for a directory entry.
    pub data: Vec<u8>,
}

/// The mathematical value of a raw archive entry.
pub struct RawEntryM {
    pub name: Seq<char>,
    pub is_dir: bool,
    pub data: Seq<u8>,
}

impl View for RawEntry {
    type V = RawEntryM;

    open spec fn view(&self) -> RawEntryM {
        RawEntryM { name: self.name@, is_dir: self.is_dir, data: self.data@ }
    }
}

/// An exact copy of a byte vector.
pub fn copy_bytes(src: &Vec<u8>) -> (r: Vec<u8>)
    ensures
        r@ == src@,
{
    let mut r: Vec<u8> = Vec::new();
    let mut i: usize = 0;
    while i < src.len()
        invariant
            0 <= i <= src@.len(),
            r@ == src@.subrange(0, i as int),
        decreases src@.len() - i,
    {
        r.push(src[i]);
        proof {
            assert(r@ =~= src@.subrange(0, i + 1));
        }
        i += 1;
    }
    proof {
        assert(r@ =~= src@);
    }
    r
}

/// A position to seek to inside an open file.
#[derive(Clone, Copy, Debug, PartialEq, Eq, Structural)]
pub enum SeekFrom {
    /// An offset from the start of the file.
    Start(usize),
    /// A signed offset from the end of the file.
    End(i64),
    /// A signed offset from the current position.
    Current(i64),
}

} // verus!
