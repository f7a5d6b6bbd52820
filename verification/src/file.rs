//! Open file handles.
//!
//! Opening a path yields a handle that owns a buffer of the file's bytes
//! together with a cursor.  Reads, writes and seeks act on the buffer;
//! a writable handle is committed back into the overlay by the facade's
//! `close`.  Writing past the end zero-fills the gap, and seeking is
//! unrestricted, as on a native file.

use vstd::prelude::*;
use crate::types::{SeekFrom, VfsError, VfsResult};

verus! {

/// The mathematical state of an open file handle.
#[verifier::ext_equal]
pub struct FileM {
    /// The virtual path the handle was opened at.
    pub path: Seq<char>,
    /// The buffered contents.
    pub data: Seq<u8>,
    /// The cursor.
    pub pos: int,
    /// Whether the handle may write and be committed.
    pub writable: bool,
}

/// A handle produced by a store: a buffer of the entry's bytes with a
/// cursor.
#[derive(Debug)]
pub struct VfsFile {
    /// The virtual path the handle was opened at.
    pub path: String,
    /// The buffered contents.
    pub data: Vec<u8>,
    /// The cursor.
    pub pos: usize,
    /// Whether the handle may write and be committed.
    pub writable: bool,
}

impl View for VfsFile {
    type V = FileM;

    open spec fn view(&self) -> FileM {
        FileM { path: self.path@, data: self.data@, pos: self.pos as int, writable: self.writable }
    }
}

/// Represents an open file of the virtual filesystem, whichever kind of
/// store produced it.
#[derive(Debug)]
pub enum File {
    /// A handle over a buffer of the entry's bytes.
    Vfs(VfsFile),
}

impl View for File {
    type V = FileM;

    open spec fn view(&self) -> FileM {
        match self {
            File::Vfs(f) => f@,
        }
    }
}

/// The cursor clamped to the contents.
pub open spec fn clamp_pos(m: FileM) -> int {
    if m.pos <= m.data.len() {
        m.pos
    } else {
        m.data.len() as int
    }
}

/// Where a read of `n` bytes stops.
pub open spec fn read_end(m: FileM, n: int) -> int {
    if clamp_pos(m) + n <= m.data.len() {
        clamp_pos(m) + n
    } else {
        m.data.len() as int
    }
}

/// The contents extended with zeroes up to `pos`, if `pos` lies past the
/// end.
pub open spec fn zero_pad(data: Seq<u8>, pos: int) -> Seq<u8> {
    if pos > data.len() {
        data + Seq::new((pos - data.len()) as nat, |i: int| 0u8)
    } else {
        data
    }
}

/// The contents after writing `buf` at offset `pos`: the old bytes up to
/// `pos` (zero-filled if past the end), then `buf`, then whatever old
/// bytes lie beyond the written range.
pub open spec fn write_at(data: Seq<u8>, pos: int, buf: Seq<u8>) -> Seq<u8>
    recommends
        0 <= pos,
{
    let padded = zero_pad(data, pos);
    let tail = if padded.len() > pos + buf.len() {
        padded.subrange(pos + buf.len(), padded.len() as int)
    } else {
        Seq::<u8>::empty()
    };
    padded.subrange(0, pos) + buf + tail
}

/// The target of a seek, relative to the handle's state.
pub open spec fn seek_target(m: FileM, from: SeekFrom) -> int {
    match from {
        SeekFrom::Start(n) => n as int,
        SeekFrom::End(off) => m.data.len() + off as int,
        SeekFrom::Current(off) => m.pos + off as int,
    }
}

impl VfsFile {
    /// Read up to `n` bytes at the cursor, advancing it.
    fn read(&mut self, n: usize) -> (r: Vec<u8>)
        ensures
            r@ == old(self)@.data.subrange(clamp_pos(old(self)@), read_end(old(self)@, n as int)),
            final(self)@ == (FileM { pos: read_end(old(self)@, n as int), ..old(self)@ }),
    {
        let dl = self.data.len();
        let start: usize = if self.pos <= dl {
            self.pos
        } else {
            dl
        };
        let end: usize = if n <= dl - start {
            start + n
        } else {
            dl
        };
        let mut r: Vec<u8> = Vec::new();
        let mut j: usize = start;
        while j < end
            invariant
                start <= j <= end <= self.data@.len(),
                r@ == self.data@.subrange(start as int, j as int),
            decreases end - j,
        {
            r.push(self.data[j]);
            proof {
                assert(r@ =~= self.data@.subrange(start as int, j + 1));
            }
            j += 1;
        }
        self.pos = end;
        proof {
            assert(final(self)@ =~= (FileM { pos: read_end(old(self)@, n as int), ..old(self)@ }));
        }
        r
    }

    /// Read everything from the cursor to the end, advancing the cursor
    /// to the end.
    fn read_to_end(&mut self) -> (r: Vec<u8>)
        ensures
            r@ == old(self)@.data.subrange(clamp_pos(old(self)@), old(self)@.data.len() as int),
            final(self)@ == (FileM { pos: old(self)@.data.len() as int, ..old(self)@ }),
    {
        let n = self.data.len();
        let r = self.read(n);
        proof {
            assert(read_end(old(self)@, n as int) == old(self)@.data.len());
        }
        r
    }

    /// Write `buf` at the cursor, zero-filling any gap past the end, and
    /// advance the cursor past the written bytes.  Fails on a read-only
    /// handle without touching anything.
    fn write(&mut self, buf: &[u8]) -> (r: VfsResult<usize>)
        ensures
            match r {
                Ok(n) => old(self)@.writable && n == buf@.len()
                    && final(self)@ == (FileM {
                    data: write_at(old(self)@.data, old(self)@.pos, buf@),
                    pos: old(self)@.pos + buf@.len(),
                    ..old(self)@
                }),
                Err(e) => *final(self) == *old(self) && (if !old(self)@.writable {
                    e == VfsError::PermissionDenied
                } else {
                    e == VfsError::Io && old(self)@.pos + buf@.len() > usize::MAX
                }),
            },
    {
        if !self.writable {
            return Err(VfsError::PermissionDenied);
        }
        let pos = self.pos;
        let bl = buf.len();
        if bl > usize::MAX - pos {
            return Err(VfsError::Io);
        }
        let dl = self.data.len();
        let keep: usize = if pos <= dl {
            pos
        } else {
            dl
        };
        let ghost padded = zero_pad(self.data@, pos as int);
        let mut nd: Vec<u8> = Vec::new();
        let mut j: usize = 0;
        while j < keep
            invariant
                0 <= j <= keep <= self.data@.len(),
                keep <= pos,
                nd@ == self.data@.subrange(0, j as int),
            decreases keep - j,
        {
            nd.push(self.data[j]);
            proof {
                assert(nd@ =~= self.data@.subrange(0, j + 1));
            }
            j += 1;
        }
        while nd.len() < pos
            invariant
                keep <= nd@.len() <= pos,
                keep == (if pos <= self.data@.len() {
                    pos as int
                } else {
                    self.data@.len() as int
                }),
                nd@.subrange(0, keep as int) == self.data@.subrange(0, keep as int),
                forall|x: int| keep <= x < nd@.len() ==> nd@[x] == 0u8,
            decreases pos - nd@.len(),
        {
            let ghost before = nd@;
            nd.push(0u8);
            proof {
                assert(nd@.subrange(0, keep as int) =~= before.subrange(0, keep as int));
            }
        }
        proof {
            assert(nd@ =~= padded.subrange(0, pos as int)) by {
                assert(padded.len() >= pos);
                assert forall|x: int| 0 <= x < pos implies nd@[x] == padded[x] by {
                    if x < keep {
                        assert(nd@.subrange(0, keep as int)[x] == self.data@.subrange(0, keep as int)[x]);
                        assert(padded[x] == self.data@[x]);
                    }
                }
            }
        }
        let ghost mid = nd@;
        let mut i: usize = 0;
        while i < bl
            invariant
                0 <= i <= bl == buf@.len(),
                nd@ == mid + buf@.subrange(0, i as int),
            decreases bl - i,
        {
            nd.push(buf[i]);
            proof {
                assert(nd@ =~= mid + buf@.subrange(0, i + 1));
            }
            i += 1;
        }
        proof {
            assert(nd@ == mid + buf@) by {
                assert(buf@.subrange(0, bl as int) =~= buf@);
            }
        }
        let ghost mid2 = nd@;
        let ts = pos + bl;
        let mut j2: usize = ts;
        while j2 < dl
            invariant
                ts <= j2,
                dl == self.data@.len(),
                j2 <= dl || j2 == ts,
                nd@ == mid2 + (if j2 > ts {
                    self.data@.subrange(ts as int, j2 as int)
                } else {
                    Seq::<u8>::empty()
                }),
            decreases dl - j2,
        {
            let ghost before = nd@;
            nd.push(self.data[j2]);
            proof {
                assert(nd@ =~= mid2 + self.data@.subrange(ts as int, j2 + 1));
            }
            j2 += 1;
        }
        proof {
            let expect = write_at(self.data@, pos as int, buf@);
            let tail = if padded.len() > ts {
                padded.subrange(ts as int, padded.len() as int)
            } else {
                Seq::<u8>::empty()
            };
            assert(padded.len() == (if pos > self.data@.len() {
                pos as int
            } else {
                self.data@.len() as int
            }));
            if dl > ts {
                assert(padded =~= self.data@);
                assert(self.data@.subrange(ts as int, dl as int) =~= tail);
            } else {
                assert(tail =~= Seq::<u8>::empty()) by {
                    if padded.len() > ts {
                        assert(pos > self.data@.len() ==> padded.len() == pos);
                        assert(padded.len() <= ts);
                    }
                }
                assert(nd@ == mid2);
            }
            assert(nd@ =~= expect);
        }
        self.data = nd;
        self.pos = ts;
        Ok(bl)
    }

    /// Move the cursor.  Fails, leaving the handle unchanged, when the
    /// target lies before the start of the file or past the greatest
    /// representable offset.
    fn seek(&mut self, from: SeekFrom) -> (r: VfsResult<usize>)
        ensures
            match r {
                Ok(n) => 0 <= seek_target(old(self)@, from) <= usize::MAX
                    && n == seek_target(old(self)@, from)
                    && final(self)@ == (FileM { pos: seek_target(old(self)@, from), ..old(self)@ }),
                Err(e) => e == VfsError::Io && *final(self) == *old(self)
                    && !(0 <= seek_target(old(self)@, from) <= usize::MAX),
            },
    {
        let target: i128 = match from {
            SeekFrom::Start(n) => n as i128,
            SeekFrom::End(off) => self.data.len() as i128 + off as i128,
            SeekFrom::Current(off) => self.pos as i128 + off as i128,
        };
        if target < 0 {
            return Err(VfsError::Io);
        }
        if target > usize::MAX as i128 {
            return Err(VfsError::Io);
        }
        self.pos = target as usize;
        Ok(self.pos)
    }
}

impl File {
    /// Read up to `n` bytes at the cursor, advancing it.
    pub fn read(&mut self, n: usize) -> (r: Vec<u8>)
        ensures
            r@ == old(self)@.data.subrange(clamp_pos(old(self)@), read_end(old(self)@, n as int)),
            final(self)@ == (FileM { pos: read_end(old(self)@, n as int), ..old(self)@ }),
    {
        match self {
            File::Vfs(f) => f.read(n),
        }
    }

    /// Read everything from the cursor to the end, advancing the cursor
    /// to the end.
    pub fn read_to_end(&mut self) -> (r: Vec<u8>)
        ensures
            r@ == old(self)@.data.subrange(clamp_pos(old(self)@), old(self)@.data.len() as int),
            final(self)@ == (FileM { pos: old(self)@.data.len() as int, ..old(self)@ }),
    {
        match self {
            File::Vfs(f) => f.read_to_end(),
        }
    }

    /// Write `buf` at the cursor, zero-filling any gap past the end, and
    /// advance the cursor past the written bytes.  Fails on a read-only
    /// handle without touching anything.
    pub fn write(&mut self, buf: &[u8]) -> (r: VfsResult<usize>)
        ensures
            match r {
                Ok(n) => old(self)@.writable && n == buf@.len()
                    && final(self)@ == (FileM {
                    data: write_at(old(self)@.data, old(self)@.pos, buf@),
                    pos: old(self)@.pos + buf@.len(),
                    ..old(self)@
                }),
                Err(e) => *final(self) == *old(self) && (if !old(self)@.writable {
                    e == VfsError::PermissionDenied
                } else {
                    e == VfsError::Io && old(self)@.pos + buf@.len() > usize::MAX
                }),
            },
    {
        match self {
            File::Vfs(f) => f.write(buf),
        }
    }

    /// Move the cursor.  Fails, leaving the handle unchanged, when the
    /// target lies before the start of the file or past the greatest
    /// representable offset.
    pub fn seek(&mut self, from: SeekFrom) -> (r: VfsResult<usize>)
        ensures
            match r {
                Ok(n) => 0 <= seek_target(old(self)@, from) <= usize::MAX
                    && n == seek_target(old(self)@, from)
                    && final(self)@ == (FileM { pos: seek_target(old(self)@, from), ..old(self)@ }),
                Err(e) => e == VfsError::Io && *final(self) == *old(self)
                    && !(0 <= seek_target(old(self)@, from) <= usize::MAX),
            },
    {
        match self {
            File::Vfs(f) => f.seek(from),
        }
    }

    /// Whether the handle may write and be committed.
    pub fn writable(&self) -> (b: bool)
        ensures
            b == self@.writable,
    {
        match self {
            File::Vfs(f) => f.writable,
        }
    }

    /// The virtual path the handle was opened at.
    pub fn path(&self) -> (p: &str)
        ensures
            p@ == self@.path,
    {
        match self {
            File::Vfs(f) => f.path.as_str(),
        }
    }
}

} // verus!
