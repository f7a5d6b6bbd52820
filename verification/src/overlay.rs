//! The overlay resolution engine.
//!
//! An ordered sequence of backing stores forms one logical filesystem.
//! Reads (`open`, `exists`, `metadata`, `read_dir`) are answered by the
//! first store, front to back, for which the operation succeeds.  Writes
//! (`open_options` with mutation intent, `create`, `mkdir`) go to the
//! first store that accepts writes, wherever the path currently lives;
//! removals go to the first writable store that contains the path.  New
//! stores may be mounted at either end at any time.

use vstd::prelude::*;
use crate::backend::{
    create_opts, mk_ok, oo_err, oo_handle, oo_ok, oo_tree, rm_ok, Backend, BackendM,
};
use crate::tree::{listing_ok, tree_props, TreeM};
use crate::types::{Metadata, OpenOptions, VfsError, VfsResult};
use crate::file::{File, FileM};
use crate::vpath::{anc_or_self, doomed_by, is_root, parent_of, root_path, valid_path};

verus! {

/// Whether store `b` holds `p` as a file.
pub open spec fn file_at(b: BackendM, p: Seq<char>) -> bool {
    b.tree.files.dom().contains(p)
}

/// Whether store `b` holds `p` at all.
pub open spec fn entry_at(b: BackendM, p: Seq<char>) -> bool {
    b.tree.files.dom().contains(p) || b.tree.dirs.contains(p)
}

/// Whether store `b` holds `p` as a directory.
pub open spec fn dir_at(b: BackendM, p: Seq<char>) -> bool {
    b.tree.dirs.contains(p)
}

/// The store properties resolution searches for.
pub enum Probe {
    /// A store holding `p` as a file.
    File,
    /// A store holding `p` at all.
    Entry,
    /// A store holding `p` as a directory.
    Dir,
    /// A store accepting writes.
    Writable,
    /// A writable store holding `p` at all.
    WritableEntry,
    /// A writable store holding `p` as a file.
    WritableFile,
}

/// Whether store `b` satisfies the probed property at `p`.
pub open spec fn probe_match(sel: Probe, b: BackendM, p: Seq<char>) -> bool {
    match sel {
        Probe::File => file_at(b, p),
        Probe::Entry => entry_at(b, p),
        Probe::Dir => dir_at(b, p),
        Probe::Writable => !b.readonly,
        Probe::WritableEntry => !b.readonly && entry_at(b, p),
        Probe::WritableFile => !b.readonly && file_at(b, p),
    }
}

/// The position of the first store satisfying the probe, if any: the
/// heart of first-match resolution.
pub open spec fn first_idx(sel: Probe, ov: Seq<BackendM>, p: Seq<char>) -> Option<int>
    decreases ov.len(),
{
    if ov.len() == 0 {
        None
    } else if probe_match(sel, ov[0], p) {
        Some(0int)
    } else {
        match first_idx(sel, ov.drop_first(), p) {
            None => None,
            Some(i) => Some(i + 1),
        }
    }
}

/// What `first_idx` finds: a match, with none before it; or no match at
/// all.
pub proof fn lemma_first_idx(sel: Probe, ov: Seq<BackendM>, p: Seq<char>)
    ensures
        match first_idx(sel, ov, p) {
            Some(i) => 0 <= i < ov.len() && probe_match(sel, ov[i], p) && forall|k: int|
                0 <= k < i ==> !probe_match(sel, #[trigger] ov[k], p),
            None => forall|k: int| 0 <= k < ov.len() ==> !probe_match(sel, #[trigger] ov[k], p),
        },
    decreases ov.len(),
{
    if ov.len() > 0 && !probe_match(sel, ov[0], p) {
        lemma_first_idx(sel, ov.drop_first(), p);
        match first_idx(sel, ov.drop_first(), p) {
            None => {
                assert forall|k: int| 0 <= k < ov.len() implies !probe_match(
                    sel,
                    #[trigger] ov[k],
                    p,
                ) by {
                    if k > 0 {
                        assert(ov.drop_first()[k - 1] == ov[k]);
                    }
                }
            },
            Some(i) => {
                assert(ov.drop_first()[i] == ov[i + 1]);
                assert forall|k: int| 0 <= k < i + 1 implies !probe_match(
                    sel,
                    #[trigger] ov[k],
                    p,
                ) by {
                    if k > 0 {
                        assert(ov.drop_first()[k - 1] == ov[k]);
                    }
                }
            },
        }
    }
}

/// An executable search that found a match at `i` with none before it
/// has found `first_idx`.
pub proof fn lemma_first_idx_is(sel: Probe, ov: Seq<BackendM>, p: Seq<char>, i: int)
    requires
        0 <= i < ov.len(),
        probe_match(sel, ov[i], p),
        forall|k: int| 0 <= k < i ==> !probe_match(sel, #[trigger] ov[k], p),
    ensures
        first_idx(sel, ov, p) == Some(i),
{
    lemma_first_idx(sel, ov, p);
    match first_idx(sel, ov, p) {
        None => {
            assert(!probe_match(sel, ov[i], p));
        },
        Some(j) => {
            if j < i {
                assert(!probe_match(sel, ov[j], p));
            }
            if i < j {
                assert(!probe_match(sel, ov[i], p));
            }
        },
    }
}

/// Whether `p` exists anywhere in the overlay.
pub open spec fn spec_exists(ov: Seq<BackendM>, p: Seq<char>) -> bool {
    exists|i: int| 0 <= i < ov.len() && entry_at(#[trigger] ov[i], p)
}

/// The outcome of `open`: the contents of `p` in the first store holding
/// it as a file, or `NotFound`.
pub open spec fn spec_open(ov: Seq<BackendM>, p: Seq<char>) -> Result<FileM, VfsError> {
    match first_idx(Probe::File, ov, p) {
        Some(i) => Ok(FileM { path: p, data: ov[i].tree.files[p], pos: 0, writable: false }),
        None => Err(VfsError::NotFound),
    }
}

/// The outcome of `metadata`: a snapshot from the first store holding
/// `p`, or `NotFound`.
pub open spec fn spec_metadata(ov: Seq<BackendM>, p: Seq<char>) -> Result<Metadata, VfsError> {
    match first_idx(Probe::Entry, ov, p) {
        Some(i) => Ok(
            Metadata {
                file: file_at(ov[i], p),
                size: if file_at(ov[i], p) {
                    ov[i].tree.files[p].len() as usize
                } else {
                    0
                },
            },
        ),
        None => Err(VfsError::NotFound),
    }
}

/// The overlay state and outcome of `open_options`.  Reads resolve by
/// first file match; writes go to the first writable store.
pub open spec fn spec_oo(ov: Seq<BackendM>, p: Seq<char>, o: OpenOptions) -> (Seq<BackendM>, Result<
    FileM,
    VfsError,
>) {
    if !o.spec_wants_write() {
        if !o.read {
            (ov, Err(VfsError::Io))
        } else {
            (ov, spec_open(ov, p))
        }
    } else {
        match first_idx(Probe::Writable, ov, p) {
            None => (ov, Err(VfsError::PermissionDenied)),
            Some(w) => {
                let b = ov[w];
                if oo_ok(b.tree, false, p, o) {
                    (
                        ov.update(w, BackendM { tree: oo_tree(b.tree, p, o), ..b }),
                        Ok(oo_handle(b.tree, p, o)),
                    )
                } else {
                    (ov, Err(oo_err(b.tree, false, p, o)))
                }
            },
        }
    }
}

/// The overlay state and outcome of `write_back`: the contents of the
/// committed handle replace the file in the first writable store that
/// holds it.
pub open spec fn spec_write_back(ov: Seq<BackendM>, p: Seq<char>, data: Seq<u8>) -> (Seq<
    BackendM,
>, Result<(), VfsError>) {
    match first_idx(Probe::WritableFile, ov, p) {
        None => (ov, Err(VfsError::NotFound)),
        Some(w) => {
            let b = ov[w];
            (
                ov.update(
                    w,
                    BackendM { tree: TreeM { dirs: b.tree.dirs, files: b.tree.files.insert(p, data) }, ..b },
                ),
                Ok(()),
            )
        },
    }
}

/// The overlay state and outcome of `rmrf`: the subtree disappears from
/// the first writable store containing the path.
pub open spec fn spec_rmrf(ov: Seq<BackendM>, p: Seq<char>) -> (Seq<BackendM>, Result<(), VfsError>) {
    match first_idx(Probe::WritableEntry, ov, p) {
        None => (ov, Err(VfsError::NotFound)),
        Some(w) => {
            let b = ov[w];
            (
                ov.update(
                    w,
                    BackendM {
                        tree: TreeM {
                            dirs: b.tree.dirs.difference(doomed_by(p)).insert(root_path()),
                            files: b.tree.files.remove_keys(doomed_by(p)),
                        },
                        ..b
                    },
                ),
                Ok(()),
            )
        },
    }
}

/// The ordered collection of backing stores.
#[derive(Debug)]
pub struct OverlayFs {
    backends: Vec<Backend>,
}

impl View for OverlayFs {
    type V = Seq<BackendM>;

    closed spec fn view(&self) -> Seq<BackendM> {
        self.backends@.map_values(|b: Backend| b@)
    }
}

impl OverlayFs {
    /// All stores have well-formed contents.
    pub closed spec fn wf(&self) -> bool {
        forall|i: int| 0 <= i < self.backends@.len() ==> (#[trigger] self.backends@[i]).wf()
    }

    /// An overlay with no stores: every lookup resolves to not-found.
    pub fn new() -> (r: OverlayFs)
        ensures
            r.wf(),
            r@ =~= Seq::<BackendM>::empty(),
    {
        OverlayFs { backends: Vec::new() }
    }

    /// The number of stores.
    pub fn count(&self) -> (n: usize)
        ensures
            n == self@.len(),
    {
        self.backends.len()
    }

    /// The self-description of the store at position `i`.
    pub fn desc_of(&self, i: usize) -> (r: String)
        requires
            i < self@.len(),
        ensures
            r@ == self@[i as int].desc,
    {
        self.backends[i].desc()
    }

    /// The root listing of the store at position `i`, for diagnostics.
    pub fn read_dir_of(&self, i: usize, p: &str) -> (r: VfsResult<Vec<String>>)
        requires
            self.wf(),
            i < self@.len(),
        ensures
            match r {
                Ok(v) => dir_at(self@[i as int], p@) && listing_ok(self@[i as int].tree, p@, v@),
                Err(e) => e == VfsError::NotFound && !dir_at(self@[i as int], p@),
            },
    {
        self.backends[i].read_dir(p)
    }

    /// Mount a store at the back: the lowest priority.
    pub fn push_back(&mut self, b: Backend)
        requires
            old(self).wf(),
            b.wf(),
        ensures
            final(self).wf(),
            final(self)@ == old(self)@.push(b@),
    {
        self.backends.push(b);
        proof {
            assert(final(self)@ =~= old(self)@.push(b@));
        }
    }

    /// Mount a store at the front: the highest priority.
    pub fn push_front(&mut self, b: Backend)
        requires
            old(self).wf(),
            b.wf(),
        ensures
            final(self).wf(),
            final(self)@ == seq![b@] + old(self)@,
    {
        self.backends.insert(0, b);
        proof {
            assert forall|k: int| 0 <= k < self.backends@.len() implies (
            #[trigger] self.backends@[k]).wf() by {
                if k > 0 {
                    assert(self.backends@[k] == old(self).backends@[k - 1]);
                }
            }
            assert(final(self)@ =~= seq![b@] + old(self)@);
        }
    }

    /// The consequences of well-formedness, for every store at once:
    /// the root directory exists, parents are closed, and no path is
    /// both a file and a directory.  Callers use this to discharge the
    /// premises of the resolution laws.
    pub proof fn lemma_wf_props(&self)
        requires
            self.wf(),
        ensures
            forall|i: int| 0 <= i < self@.len() ==> tree_props((#[trigger] self@[i]).tree),
    {
        assert forall|i: int| 0 <= i < self@.len() implies tree_props((#[trigger] self@[i]).tree) by {
            self.backends@[i].lemma_wf_props();
            assert(self@[i] == self.backends@[i]@);
        }
    }

    /// Whether `p` exists in any store; never an error.
    pub fn exists_at(&self, p: &str) -> (b: bool)
        requires
            self.wf(),
        ensures
            b == spec_exists(self@, p@),
    {
        let mut i: usize = 0;
        while i < self.backends.len()
            invariant
                self.wf(),
                0 <= i <= self@.len(),
                self@.len() == self.backends@.len(),
                forall|k: int| 0 <= k < i ==> !entry_at(#[trigger] self@[k], p@),
            decreases self@.len() - i,
        {
            if self.backends[i].exists_at(p) {
                proof {
                    assert(self@[i as int] == self.backends@[i as int]@);
                    assert(entry_at(self@[i as int], p@));
                }
                return true;
            }
            i += 1;
        }
        false
    }

    /// Open `p` for reading from the first store holding it as a file.
    pub fn open(&self, p: &str) -> (r: VfsResult<File>)
        requires
            self.wf(),
        ensures
            match r {
                Ok(f) => spec_open(self@, p@) == Ok::<FileM, VfsError>(f@),
                Err(e) => spec_open(self@, p@) == Err::<FileM, VfsError>(e),
            },
    {
        let mut i: usize = 0;
        while i < self.backends.len()
            invariant
                self.wf(),
                0 <= i <= self@.len(),
                self@.len() == self.backends@.len(),
                forall|k: int| 0 <= k < i ==> !file_at(#[trigger] self@[k], p@),
            decreases self@.len() - i,
        {
            match self.backends[i].open(p) {
                Ok(f) => {
                    proof {
                        lemma_first_idx_is(Probe::File, self@, p@, i as int);
                    }
                    return Ok(f);
                },
                Err(_) => {},
            }
            i += 1;
        }
        proof {
            lemma_first_idx(Probe::File, self@, p@);
            if first_idx(Probe::File, self@, p@) is Some {
                let j = first_idx(Probe::File, self@, p@).unwrap();
                assert(!file_at(self@[j], p@));
            }
        }
        Err(VfsError::NotFound)
    }

    /// A metadata snapshot from the first store holding `p`.
    pub fn metadata(&self, p: &str) -> (r: VfsResult<Metadata>)
        requires
            self.wf(),
        ensures
            match r {
                Ok(m) => spec_metadata(self@, p@) == Ok::<Metadata, VfsError>(m),
                Err(e) => spec_metadata(self@, p@) == Err::<Metadata, VfsError>(e),
            },
    {
        let mut i: usize = 0;
        while i < self.backends.len()
            invariant
                self.wf(),
                0 <= i <= self@.len(),
                self@.len() == self.backends@.len(),
                forall|k: int| 0 <= k < i ==> !entry_at(#[trigger] self@[k], p@),
            decreases self@.len() - i,
        {
            match self.backends[i].metadata(p) {
                Ok(m) => {
                    proof {
                        lemma_first_idx_is(Probe::Entry, self@, p@, i as int);
                    }
                    return Ok(m);
                },
                Err(_) => {},
            }
            i += 1;
        }
        proof {
            lemma_first_idx(Probe::Entry, self@, p@);
            if first_idx(Probe::Entry, self@, p@) is Some {
                let j = first_idx(Probe::Entry, self@, p@).unwrap();
                assert(!entry_at(self@[j], p@));
            }
        }
        Err(VfsError::NotFound)
    }

    /// The listing of directory `p` from the first store holding it as a
    /// directory; listings are not merged across stores.
    pub fn read_dir(&self, p: &str) -> (r: VfsResult<Vec<String>>)
        requires
            self.wf(),
        ensures
            match r {
                Ok(v) => (match first_idx(Probe::Dir, self@, p@) {
                    Some(i) => listing_ok(self@[i].tree, p@, v@),
                    None => false,
                }),
                Err(e) => e == VfsError::NotFound && first_idx(Probe::Dir, self@, p@) is None,
            },
    {
        let mut i: usize = 0;
        while i < self.backends.len()
            invariant
                self.wf(),
                0 <= i <= self@.len(),
                self@.len() == self.backends@.len(),
                forall|k: int| 0 <= k < i ==> !dir_at(#[trigger] self@[k], p@),
            decreases self@.len() - i,
        {
            match self.backends[i].read_dir(p) {
                Ok(v) => {
                    proof {
                        lemma_first_idx_is(Probe::Dir, self@, p@, i as int);
                    }
                    return Ok(v);
                },
                Err(_) => {},
            }
            i += 1;
        }
        proof {
            lemma_first_idx(Probe::Dir, self@, p@);
            if first_idx(Probe::Dir, self@, p@) is Some {
                let j = first_idx(Probe::Dir, self@, p@).unwrap();
                assert(!dir_at(self@[j], p@));
            }
        }
        Err(VfsError::NotFound)
    }

    /// Open `p` with the given options: reads resolve first-match,
    /// mutation goes to the first writable store, whose answer stands.
    pub fn open_options(&mut self, p: &str, opts: OpenOptions) -> (r: VfsResult<File>)
        requires
            old(self).wf(),
        ensures
            final(self).wf(),
            final(self)@ == spec_oo(old(self)@, p@, opts).0,
            match r {
                Ok(f) => spec_oo(old(self)@, p@, opts).1 == Ok::<FileM, VfsError>(f@),
                Err(e) => spec_oo(old(self)@, p@, opts).1 == Err::<FileM, VfsError>(e),
            },
    {
        if !opts.wants_write() {
            if !opts.read {
                return Err(VfsError::Io);
            }
            return self.open(p);
        }
        let mut i: usize = 0;
        while i < self.backends.len()
            invariant
                old(self) == self,
                self.wf(),
                opts.spec_wants_write(),
                0 <= i <= self@.len(),
                self@.len() == self.backends@.len(),
                forall|k: int| 0 <= k < i ==> (#[trigger] self@[k]).readonly,
            decreases self@.len() - i,
        {
            if !self.backends[i].readonly() {
                proof {
                    lemma_first_idx_is(Probe::Writable, self@, p@, i as int);
                }
                let ghost ov0 = self@;
                let mut b = self.backends.remove(i);
                let r = b.open_options(p, opts);
                self.backends.insert(i, b);
                proof {
                    assert forall|k: int| 0 <= k < self.backends@.len() implies (
                    #[trigger] self.backends@[k]).wf() by {
                        if k != i {
                            assert(self.backends@[k] == old(self).backends@[k]);
                        }
                    }
                    assert(self@ =~= ov0.update(i as int, self.backends@[i as int]@));
                    assert(spec_oo(ov0, p@, opts).0 =~= self@);
                }
                return r;
            }
            i += 1;
        }
        proof {
            lemma_first_idx(Probe::Writable, self@, p@);
            if first_idx(Probe::Writable, self@, p@) is Some {
                let j = first_idx(Probe::Writable, self@, p@).unwrap();
                assert((self@[j]).readonly);
            }
        }
        Err(VfsError::PermissionDenied)
    }

    /// Create `p` for writing in the first writable store, truncating
    /// any file already there.
    pub fn create(&mut self, p: &str) -> (r: VfsResult<File>)
        requires
            old(self).wf(),
        ensures
            final(self).wf(),
            final(self)@ == spec_oo(old(self)@, p@, create_opts()).0,
            match r {
                Ok(f) => spec_oo(old(self)@, p@, create_opts()).1 == Ok::<FileM, VfsError>(f@),
                Err(e) => spec_oo(old(self)@, p@, create_opts()).1 == Err::<FileM, VfsError>(e),
            },
    {
        let opts = OpenOptions::new().write(true).create(true).truncate(true);
        proof {
            assert(opts == create_opts());
        }
        self.open_options(p, opts)
    }

    /// Commit the contents of a written handle into the first writable
    /// store holding the file.
    pub fn write_back(&mut self, p: &str, data: Vec<u8>) -> (r: VfsResult<()>)
        requires
            old(self).wf(),
        ensures
            final(self).wf(),
            final(self)@ == spec_write_back(old(self)@, p@, data@).0,
            match r {
                Ok(()) => spec_write_back(old(self)@, p@, data@).1 == Ok::<(), VfsError>(()),
                Err(e) => spec_write_back(old(self)@, p@, data@).1 == Err::<(), VfsError>(e),
            },
    {
        let mut i: usize = 0;
        while i < self.backends.len()
            invariant
                old(self) == self,
                self.wf(),
                0 <= i <= self@.len(),
                self@.len() == self.backends@.len(),
                forall|k: int| 0 <= k < i ==> !probe_match(Probe::WritableFile, #[trigger] self@[k], p@),
            decreases self@.len() - i,
        {
            if !self.backends[i].readonly() && self.backends[i].exists_at(p) {
                let is_file = {
                    let b = &self.backends[i];
                    match b.metadata(p) {
                        Ok(m) => m.is_file(),
                        Err(_) => false,
                    }
                };
                if is_file {
                    proof {
                        lemma_first_idx_is(Probe::WritableFile, self@, p@, i as int);
                    }
                    let ghost ov0 = self@;
                    let mut b = self.backends.remove(i);
                    let r = b.write_back(p, data);
                    self.backends.insert(i, b);
                    proof {
                        assert(r is Ok);
                        assert forall|k: int| 0 <= k < self.backends@.len() implies (
                        #[trigger] self.backends@[k]).wf() by {
                            if k != i {
                                assert(self.backends@[k] == old(self).backends@[k]);
                            }
                        }
                        assert(self@ =~= ov0.update(i as int, self.backends@[i as int]@));
                        assert(spec_write_back(ov0, p@, data@).0 =~= self@);
                    }
                    return Ok(());
                }
            }
            i += 1;
        }
        proof {
            lemma_first_idx(Probe::WritableFile, self@, p@);
            if first_idx(Probe::WritableFile, self@, p@) is Some {
                let j = first_idx(Probe::WritableFile, self@, p@).unwrap();
                assert(!probe_match(Probe::WritableFile, self@[j], p@));
            }
        }
        Err(VfsError::NotFound)
    }

    /// Make `p` a directory in the first writable store, creating
    /// missing ancestors.
    pub fn mkdir(&mut self, p: &str) -> (r: VfsResult<()>)
        requires
            old(self).wf(),
        ensures
            final(self).wf(),
            match first_idx(Probe::Writable, old(self)@, p@) {
                None => r == Err::<(), VfsError>(VfsError::PermissionDenied) && final(self)@
                    == old(self)@,
                Some(w) => {
                    &&& final(self)@.len() == old(self)@.len()
                    &&& forall|k: int|
                        0 <= k < old(self)@.len() && k != w ==> final(self)@[k] == old(self)@[k]
                    &&& final(self)@[w].desc == old(self)@[w].desc
                    &&& final(self)@[w].readonly == old(self)@[w].readonly
                    &&& final(self)@[w].tree.files == old(self)@[w].tree.files
                    &&& match r {
                        Ok(()) => valid_path(p@) && mk_ok(old(self)@[w].tree, p@)
                            && final(self)@[w].tree.dirs == old(self)@[w].tree.dirs.union(
                            anc_or_self(p@),
                        ),
                        Err(e) => !(valid_path(p@) && mk_ok(old(self)@[w].tree, p@)) && old(
                            self,
                        )@[w].tree.dirs.subset_of(final(self)@[w].tree.dirs)
                            && final(self)@[w].tree.dirs.subset_of(
                            old(self)@[w].tree.dirs.union(anc_or_self(p@)),
                        ) && (if !valid_path(p@) {
                            e == VfsError::NotFound
                        } else {
                            e == VfsError::AlreadyExists
                        }),
                    }
                },
            },
    {
        let mut i: usize = 0;
        while i < self.backends.len()
            invariant
                old(self) == self,
                self.wf(),
                0 <= i <= self@.len(),
                self@.len() == self.backends@.len(),
                forall|k: int| 0 <= k < i ==> (#[trigger] self@[k]).readonly,
            decreases self@.len() - i,
        {
            if !self.backends[i].readonly() {
                proof {
                    lemma_first_idx_is(Probe::Writable, self@, p@, i as int);
                }
                let ghost ov0 = self@;
                let mut b = self.backends.remove(i);
                let r = b.mkdir(p);
                self.backends.insert(i, b);
                proof {
                    assert forall|k: int| 0 <= k < self.backends@.len() implies (
                    #[trigger] self.backends@[k]).wf() by {
                        if k != i {
                            assert(self.backends@[k] == old(self).backends@[k]);
                        }
                    }
                    assert(self@ =~= ov0.update(i as int, self.backends@[i as int]@));
                    assert forall|k: int| 0 <= k < ov0.len() && k != i as int implies self@[k]
                        == ov0[k] by {}
                }
                return r;
            }
            i += 1;
        }
        proof {
            lemma_first_idx(Probe::Writable, self@, p@);
            if first_idx(Probe::Writable, self@, p@) is Some {
                let j = first_idx(Probe::Writable, self@, p@).unwrap();
                assert((self@[j]).readonly);
            }
        }
        Err(VfsError::PermissionDenied)
    }

    /// Remove exactly `p` from the first writable store that contains
    /// it; readonly stores and stores without the path are skipped.
    pub fn rm(&mut self, p: &str) -> (r: VfsResult<()>)
        requires
            old(self).wf(),
        ensures
            final(self).wf(),
            match first_idx(Probe::WritableEntry, old(self)@, p@) {
                None => r == Err::<(), VfsError>(VfsError::NotFound) && final(self)@ == old(self)@,
                Some(w) => match r {
                    Ok(()) => rm_ok(old(self)@[w].tree, p@) && final(self)@ == old(self)@.update(
                        w,
                        BackendM {
                            tree: TreeM {
                                dirs: old(self)@[w].tree.dirs.remove(p@),
                                files: old(self)@[w].tree.files.remove(p@),
                            },
                            ..old(self)@[w]
                        },
                    ),
                    Err(e) => final(self)@ == old(self)@ && !rm_ok(old(self)@[w].tree, p@) && e
                        == VfsError::Io,
                },
            },
    {
        let mut i: usize = 0;
        while i < self.backends.len()
            invariant
                old(self) == self,
                self.wf(),
                0 <= i <= self@.len(),
                self@.len() == self.backends@.len(),
                forall|k: int|
                    0 <= k < i ==> !probe_match(Probe::WritableEntry, #[trigger] self@[k], p@),
            decreases self@.len() - i,
        {
            if !self.backends[i].readonly() && self.backends[i].exists_at(p) {
                proof {
                    assert(self@[i as int] == self.backends@[i as int]@);
                    lemma_first_idx_is(Probe::WritableEntry, self@, p@, i as int);
                }
                let ghost ov0 = self@;
                let mut b = self.backends.remove(i);
                let r = b.rm(p);
                self.backends.insert(i, b);
                proof {
                    assert forall|k: int| 0 <= k < self.backends@.len() implies (
                    #[trigger] self.backends@[k]).wf() by {
                        if k != i {
                            assert(self.backends@[k] == old(self).backends@[k]);
                        }
                    }
                    assert(self@ =~= ov0.update(i as int, self.backends@[i as int]@));
                    if r is Ok {
                        assert(self@ =~= ov0.update(
                            i as int,
                            BackendM {
                                tree: TreeM {
                                    dirs: ov0[i as int].tree.dirs.remove(p@),
                                    files: ov0[i as int].tree.files.remove(p@),
                                },
                                ..ov0[i as int]
                            },
                        ));
                    } else {
                        assert(self@ =~= ov0);
                    }
                }
                return r;
            }
            i += 1;
        }
        proof {
            lemma_first_idx(Probe::WritableEntry, self@, p@);
            if first_idx(Probe::WritableEntry, self@, p@) is Some {
                let j = first_idx(Probe::WritableEntry, self@, p@).unwrap();
                assert(!probe_match(Probe::WritableEntry, self@[j], p@));
            }
        }
        Err(VfsError::NotFound)
    }

    /// Remove `p` and everything below it from the first writable store
    /// that contains it.
    pub fn rmrf(&mut self, p: &str) -> (r: VfsResult<()>)
        requires
            old(self).wf(),
        ensures
            final(self).wf(),
            final(self)@ == spec_rmrf(old(self)@, p@).0,
            match r {
                Ok(()) => spec_rmrf(old(self)@, p@).1 == Ok::<(), VfsError>(()),
                Err(e) => spec_rmrf(old(self)@, p@).1 == Err::<(), VfsError>(e),
            },
    {
        let mut i: usize = 0;
        while i < self.backends.len()
            invariant
                old(self) == self,
                self.wf(),
                0 <= i <= self@.len(),
                self@.len() == self.backends@.len(),
                forall|k: int|
                    0 <= k < i ==> !probe_match(Probe::WritableEntry, #[trigger] self@[k], p@),
            decreases self@.len() - i,
        {
            if !self.backends[i].readonly() && self.backends[i].exists_at(p) {
                proof {
                    assert(self@[i as int] == self.backends@[i as int]@);
                    lemma_first_idx_is(Probe::WritableEntry, self@, p@, i as int);
                }
                let ghost ov0 = self@;
                let mut b = self.backends.remove(i);
                let r = b.rmrf(p);
                self.backends.insert(i, b);
                proof {
                    assert(r is Ok);
                    assert forall|k: int| 0 <= k < self.backends@.len() implies (
                    #[trigger] self.backends@[k]).wf() by {
                        if k != i {
                            assert(self.backends@[k] == old(self).backends@[k]);
                        }
                    }
                    assert(self@ =~= ov0.update(i as int, self.backends@[i as int]@));
                    assert(spec_rmrf(ov0, p@).0 =~= self@);
                }
                return Ok(());
            }
            i += 1;
        }
        proof {
            lemma_first_idx(Probe::WritableEntry, self@, p@);
            if first_idx(Probe::WritableEntry, self@, p@) is Some {
                let j = first_idx(Probe::WritableEntry, self@, p@).unwrap();
                assert(!probe_match(Probe::WritableEntry, self@[j], p@));
            }
        }
        Err(VfsError::NotFound)
    }

    /// Record contents already present in the storage mounted at
    /// position `i`, bypassing the write policy.
    pub fn load_into(&mut self, i: usize, p: &str, data: Vec<u8>) -> (r: VfsResult<()>)
        requires
            old(self).wf(),
            i < old(self)@.len(),
        ensures
            final(self).wf(),
            final(self)@.len() == old(self)@.len(),
            forall|k: int|
                0 <= k < old(self)@.len() && k != i ==> final(self)@[k] == old(self)@[k],
            final(self)@[i as int].desc == old(self)@[i as int].desc,
            final(self)@[i as int].readonly == old(self)@[i as int].readonly,
            match r {
                Ok(()) => valid_path(p@) && !is_root(p@) && mk_ok(
                    old(self)@[i as int].tree,
                    parent_of(p@),
                ) && !old(self)@[i as int].tree.dirs.contains(p@) && final(self)@[i as int].tree
                    == (TreeM {
                    dirs: old(self)@[i as int].tree.dirs.union(anc_or_self(parent_of(p@))),
                    files: old(self)@[i as int].tree.files.insert(p@, data@),
                }),
                Err(e) => final(self)@[i as int].tree.files == old(self)@[i as int].tree.files && (
                if !valid_path(p@) || is_root(p@) {
                    e == VfsError::NotFound && final(self)@[i as int] == old(self)@[i as int]
                } else if !mk_ok(old(self)@[i as int].tree, parent_of(p@)) {
                    e == VfsError::AlreadyExists && old(self)@[i as int].tree.dirs.subset_of(
                        final(self)@[i as int].tree.dirs,
                    ) && final(self)@[i as int].tree.dirs.subset_of(
                        old(self)@[i as int].tree.dirs.union(anc_or_self(parent_of(p@))),
                    )
                } else {
                    e == VfsError::Io && old(self)@[i as int].tree.dirs.contains(p@)
                        && final(self)@[i as int].tree == (TreeM {
                        dirs: old(self)@[i as int].tree.dirs.union(anc_or_self(parent_of(p@))),
                        files: old(self)@[i as int].tree.files,
                    })
                }),
            },
    {
        let ghost ov0 = self@;
        let mut b = self.backends.remove(i);
        let r = b.load(p, data);
        self.backends.insert(i, b);
        proof {
            assert forall|k: int| 0 <= k < self.backends@.len() implies (
            #[trigger] self.backends@[k]).wf() by {
                if k != i {
                    assert(self.backends@[k] == old(self).backends@[k]);
                }
            }
            assert(self@ =~= ov0.update(i as int, self.backends@[i as int]@));
            assert forall|k: int| 0 <= k < ov0.len() && k != i as int implies self@[k] == ov0[k] by {}
        }
        r
    }
}

} // verus!
