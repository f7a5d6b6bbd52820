//! The backing stores of the overlay.
//!
//! A store is directory-backed (a mounted root with a readonly flag) or
//! archive-backed (an index built once from the archive's entry list,
//! always readonly).  Both satisfy one capability set: open, open with
//! options, create, make-directory, remove, remove-recursive, exists,
//! stat and list-directory.  A readonly store rejects every mutating
//! operation with `PermissionDenied` before touching anything.

use vstd::prelude::*;
use crate::vpath::{
    anc_or_self, doomed_by, is_root, lemma_anc_shorter, lemma_parent, parent_of, path_is_root,
    path_is_valid, path_parent, root_path, under, valid_path, child_of,
};
use crate::tree::{empty_tree, listing_ok, tree_props, Tree, TreeM};
use crate::types::{copy_bytes, Metadata, OpenOptions, RawEntry, RawEntryM, VfsError, VfsResult};
use crate::file::{File, FileM, VfsFile};
use vstd::string::*;

verus! {

/// The mathematical value of a store: a self-description used for
/// diagnostics, the write policy, and the contents.
#[verifier::ext_equal]
pub struct BackendM {
    pub desc: Seq<char>,
    pub readonly: bool,
    pub tree: TreeM,
}

/// A directory-backed store: a mounted root with a readonly flag.
#[derive(Debug)]
pub struct DirFs {
    root: String,
    readonly: bool,
    tree: Tree,
}

/// An archive-backed store: an index over the archive's entries, always
/// readonly.
#[derive(Debug)]
pub struct ZipFs {
    source: String,
    tree: Tree,
}

/// One backing store of the overlay.
#[derive(Debug)]
pub enum Backend {
    Dir(DirFs),
    Zip(ZipFs),
}

impl View for Backend {
    type V = BackendM;

    closed spec fn view(&self) -> BackendM {
        match self {
            Backend::Dir(d) => BackendM { desc: d.root@, readonly: d.readonly, tree: d.tree@ },
            Backend::Zip(z) => BackendM { desc: z.source@, readonly: true, tree: z.tree@ },
        }
    }
}

/// The entry name normalized to a virtual path: a leading slash is
/// supplied if missing, one trailing slash is dropped.
pub open spec fn norm_name(n: Seq<char>) -> Seq<char> {
    let a = if n.len() >= 1 && n[0] == '/' {
        n
    } else {
        seq!['/'] + n
    };
    if a.len() > 1 && a[a.len() - 1] == '/' {
        a.drop_last()
    } else {
        a
    }
}

/// Whether making `p` a directory collides with no file of `t`.
pub open spec fn mk_ok(t: TreeM, p: Seq<char>) -> bool {
    forall|q: Seq<char>| #[trigger] anc_or_self(p).contains(q) ==> !t.files.dom().contains(q)
}

/// The contents after one archive entry is indexed, or nothing when the
/// entry is malformed or collides with an already indexed file.
pub open spec fn zip_add(t: TreeM, e: RawEntryM) -> Option<TreeM> {
    let p = norm_name(e.name);
    if !valid_path(p) {
        None
    } else if e.is_dir {
        if mk_ok(t, p) {
            Some(TreeM { dirs: t.dirs.union(anc_or_self(p)), files: t.files })
        } else {
            None
        }
    } else {
        if is_root(p) {
            None
        } else if mk_ok(t, parent_of(p)) && !t.dirs.contains(p) {
            Some(
                TreeM {
                    dirs: t.dirs.union(anc_or_self(parent_of(p))),
                    files: t.files.insert(p, e.data),
                },
            )
        } else {
            None
        }
    }
}

/// The contents after a whole entry list is indexed, front to back.
pub open spec fn zip_fold(t: TreeM, es: Seq<RawEntryM>) -> Option<TreeM>
    decreases es.len(),
{
    if es.len() == 0 {
        Some(t)
    } else {
        match zip_add(t, es[0]) {
            None => None,
            Some(t2) => zip_fold(t2, es.drop_first()),
        }
    }
}

/// Indexing one more entry continues the fold of the entries before it.
pub proof fn lemma_zip_fold_snoc(t0: TreeM, es: Seq<RawEntryM>, i: int)
    requires
        0 <= i < es.len(),
    ensures
        zip_fold(t0, es.subrange(0, i + 1)) == (match zip_fold(t0, es.subrange(0, i)) {
            None => None::<TreeM>,
            Some(m) => zip_add(m, es[i]),
        }),
    decreases i,
{
    let a = es.subrange(0, i + 1);
    let b = es.subrange(0, i);
    if i == 0 {
        assert(a.len() == 1);
        assert(b.len() == 0);
        assert(a[0] == es[0]);
        assert(zip_fold(t0, b) == Some(t0));
        match zip_add(t0, es[0]) {
            None => {
                assert(zip_fold(t0, a) is None);
            },
            Some(t2) => {
                assert(a.drop_first().len() == 0);
                assert(zip_fold(t2, a.drop_first()) == Some(t2));
                assert(zip_fold(t0, a) == Some(t2));
            },
        }
    } else {
        assert(a[0] == es[0]);
        assert(b[0] == es[0]);
        match zip_add(t0, es[0]) {
            None => {
                assert(zip_fold(t0, a) is None);
                assert(zip_fold(t0, b) is None);
            },
            Some(t2) => {
                assert(zip_fold(t0, a) == zip_fold(t2, a.drop_first()));
                assert(zip_fold(t0, b) == zip_fold(t2, b.drop_first()));
                lemma_zip_fold_snoc(t2, es.drop_first(), i - 1);
                assert(es.drop_first().subrange(0, i) =~= a.drop_first());
                assert(es.drop_first().subrange(0, i - 1) =~= b.drop_first());
                assert(es.drop_first()[i - 1] == es[i]);
                assert(zip_fold(t2, a.drop_first()) == (match zip_fold(t2, b.drop_first()) {
                    None => None::<TreeM>,
                    Some(m) => zip_add(m, es[i]),
                }));
            },
        }
    }
}

/// A failed step makes the whole fold fail.
pub proof fn lemma_zip_fold_stuck(t0: TreeM, es: Seq<RawEntryM>, i: int)
    requires
        0 <= i <= es.len(),
        zip_fold(t0, es.subrange(0, i)) is None,
    ensures
        zip_fold(t0, es) is None,
    decreases es.len() - i,
{
    if i == es.len() {
        assert(es.subrange(0, i) =~= es);
    } else {
        lemma_zip_fold_snoc(t0, es, i);
        lemma_zip_fold_stuck(t0, es, i + 1);
    }
}

/// The entry name normalized to a virtual path.
pub fn normalize_name(n: &str) -> (r: String)
    ensures
        r@ == norm_name(n@),
{
    proof {
        reveal_strlit("/");
    }
    let rooted: String = if n.unicode_len() >= 1 && n.get_char(0) == '/' {
        n.to_owned()
    } else {
        let mut s = String::from_str("/");
        proof {
            assert(s@ =~= seq!['/']);
        }
        s.append(n);
        proof {
            assert(s@ =~= seq!['/'] + n@);
        }
        s
    };
    let ln = rooted.as_str().unicode_len();
    if ln > 1 && rooted.as_str().get_char(ln - 1) == '/' {
        let r = rooted.as_str().substring_char(0, ln - 1).to_owned();
        proof {
            assert(r@ =~= norm_name(n@));
        }
        r
    } else {
        rooted
    }
}


/// Whether a plain (non-mutating) or mutating open of `p` with options
/// `o` succeeds against contents `t` under write policy `ro`.
pub open spec fn oo_ok(t: TreeM, ro: bool, p: Seq<char>, o: OpenOptions) -> bool {
    if !o.spec_wants_write() {
        o.read && t.files.dom().contains(p)
    } else {
        &&& !ro
        &&& valid_path(p)
        &&& !is_root(p)
        &&& !t.dirs.contains(p)
        &&& (t.files.dom().contains(p) || (o.create && t.dirs.contains(parent_of(p))))
    }
}

/// The error an open of `p` with options `o` reports when it fails.
pub open spec fn oo_err(t: TreeM, ro: bool, p: Seq<char>, o: OpenOptions) -> VfsError {
    if !o.spec_wants_write() {
        if !o.read {
            VfsError::Io
        } else {
            VfsError::NotFound
        }
    } else if ro {
        VfsError::PermissionDenied
    } else if !valid_path(p) || is_root(p) {
        VfsError::NotFound
    } else if t.dirs.contains(p) {
        VfsError::Io
    } else {
        VfsError::NotFound
    }
}

/// Whether a successful open starts from empty contents: a truncating
/// open, or the creation of a missing file.
pub open spec fn oo_fresh(t: TreeM, p: Seq<char>, o: OpenOptions) -> bool {
    o.spec_wants_write() && (o.truncate || !t.files.dom().contains(p))
}

/// The store contents after a successful open of `p` with options `o`.
pub open spec fn oo_tree(t: TreeM, p: Seq<char>, o: OpenOptions) -> TreeM {
    if oo_fresh(t, p, o) {
        TreeM { dirs: t.dirs, files: t.files.insert(p, Seq::<u8>::empty()) }
    } else {
        t
    }
}

/// The handle a successful open of `p` with options `o` yields.
pub open spec fn oo_handle(t: TreeM, p: Seq<char>, o: OpenOptions) -> FileM {
    let data = if oo_fresh(t, p, o) {
        Seq::<u8>::empty()
    } else {
        t.files[p]
    };
    FileM {
        path: p,
        data,
        pos: if o.append {
            data.len() as int
        } else {
            0
        },
        writable: o.spec_wants_write(),
    }
}

/// The options `create` opens with: write, create-if-missing, truncate.
pub open spec fn create_opts() -> OpenOptions {
    OpenOptions { read: false, write: true, create: true, append: false, truncate: true }
}

/// Whether removing exactly `p` can succeed against contents `t`: a
/// file, or a directory with nothing below it.
pub open spec fn rm_ok(t: TreeM, p: Seq<char>) -> bool {
    t.files.dom().contains(p) || (t.dirs.contains(p) && !is_root(p) && forall|q: Seq<char>|
        !((t.dirs.contains(q) || t.files.dom().contains(q)) && #[trigger] under(q, p)))
}

/// The error a removal of `p` reports when it fails.
pub open spec fn rm_err(t: TreeM, ro: bool, p: Seq<char>) -> VfsError {
    if ro {
        VfsError::PermissionDenied
    } else if !t.files.dom().contains(p) && !t.dirs.contains(p) {
        VfsError::NotFound
    } else {
        VfsError::Io
    }
}

/// Opening `p` with mutating options on writable contents.
fn oo_write(tree: &mut Tree, p: &str, opts: OpenOptions) -> (r: VfsResult<File>)
    requires
        old(tree).wf(),
        opts.spec_wants_write(),
    ensures
        final(tree).wf(),
        match r {
            Ok(f) => oo_ok(old(tree)@, false, p@, opts) && f@ == oo_handle(old(tree)@, p@, opts)
                && final(tree)@ == oo_tree(old(tree)@, p@, opts),
            Err(e) => !oo_ok(old(tree)@, false, p@, opts) && e == oo_err(
                old(tree)@,
                false,
                p@,
                opts,
            ) && *final(tree) == *old(tree),
        },
{
    if !path_is_valid(p) || path_is_root(p) {
        return Err(VfsError::NotFound);
    }
    if tree.is_dir_at(p) {
        return Err(VfsError::Io);
    }
    proof {
        tree.lemma_wf_props();
    }
    match tree.get_file(p) {
        Some(data) => {
            if opts.truncate {
                tree.insert_file(p, Vec::new());
                let f = File::Vfs(
                    VfsFile { path: p.to_owned(), data: Vec::new(), pos: 0, writable: true },
                );
                proof {
                    assert(f@ =~= oo_handle(old(tree)@, p@, opts));
                    assert(tree@ =~= oo_tree(old(tree)@, p@, opts));
                }
                Ok(f)
            } else {
                let pos = if opts.append {
                    data.len()
                } else {
                    0
                };
                let f = File::Vfs(VfsFile { path: p.to_owned(), data, pos, writable: true });
                proof {
                    assert(f@ =~= oo_handle(old(tree)@, p@, opts));
                }
                Ok(f)
            }
        },
        None => {
            if !opts.create {
                return Err(VfsError::NotFound);
            }
            let par = path_parent(p);
            proof {
                lemma_parent(p@);
            }
            if !tree.is_dir_at(par.as_str()) {
                return Err(VfsError::NotFound);
            }
            tree.insert_file(p, Vec::new());
            let f = File::Vfs(
                VfsFile { path: p.to_owned(), data: Vec::new(), pos: 0, writable: true },
            );
            proof {
                assert(f@ =~= oo_handle(old(tree)@, p@, opts));
                assert(tree@ =~= oo_tree(old(tree)@, p@, opts));
            }
            Ok(f)
        },
    }
}

impl Backend {
    /// Well-formed contents.
    pub closed spec fn wf(&self) -> bool {
        match self {
            Backend::Dir(d) => d.tree.wf(),
            Backend::Zip(z) => z.tree.wf(),
        }
    }

    /// The consequences of well-formedness, stated over the contents.
    pub proof fn lemma_wf_props(&self)
        requires
            self.wf(),
        ensures
            tree_props(self@.tree),
    {
        match self {
            Backend::Dir(d) => d.tree.lemma_wf_props(),
            Backend::Zip(z) => z.tree.lemma_wf_props(),
        }
    }

    /// A directory-backed store over `root`, initially empty.
    pub fn new_dir(root: &str, readonly: bool) -> (b: Backend)
        ensures
            b.wf(),
            b@ == (BackendM { desc: root@, readonly, tree: empty_tree() }),
    {
        Backend::Dir(DirFs { root: root.to_owned(), readonly, tree: Tree::new() })
    }

    /// An archive-backed store over the given entry list: the index is
    /// built once, here, normalizing each name and synthesizing the
    /// directories above every entry.  A malformed name or a collision
    /// with an already indexed file is an error.
    pub fn new_zip(source: &str, entries: &Vec<RawEntry>) -> (r: VfsResult<Backend>)
        ensures
            match r {
                Ok(b) => b.wf() && zip_fold(
                    empty_tree(),
                    entries@.map_values(|e: RawEntry| e@),
                ) == Some(b@.tree) && b@.readonly && b@.desc == source@,
                Err(e) => e == VfsError::Io && zip_fold(
                    empty_tree(),
                    entries@.map_values(|e: RawEntry| e@),
                ) is None,
            },
    {
        let ghost es = entries@.map_values(|e: RawEntry| e@);
        let mut tree = Tree::new();
        proof {
            assert(es.subrange(0, 0) =~= Seq::<RawEntryM>::empty());
        }
        let mut i: usize = 0;
        while i < entries.len()
            invariant
                tree.wf(),
                0 <= i <= entries@.len(),
                es == entries@.map_values(|e: RawEntry| e@),
                es.len() == entries@.len(),
                zip_fold(empty_tree(), es.subrange(0, i as int)) == Some(tree@),
            decreases entries@.len() - i,
        {
            let e = &entries[i];
            proof {
                assert(es[i as int] == entries@[i as int]@);
                lemma_zip_fold_snoc(empty_tree(), es, i as int);
            }
            let p = normalize_name(e.name.as_str());
            let ghost t0 = tree@;
            if !path_is_valid(p.as_str()) {
                proof {
                    lemma_zip_fold_stuck(empty_tree(), es, i + 1);
                }
                return Err(VfsError::Io);
            }
            if e.is_dir {
                let ok = tree.make_dirs(p.as_str());
                if !ok {
                    proof {
                        lemma_zip_fold_stuck(empty_tree(), es, i + 1);
                    }
                    return Err(VfsError::Io);
                }
                proof {
                    assert(tree@ =~= zip_add(t0, es[i as int]).unwrap());
                }
            } else {
                if path_is_root(p.as_str()) {
                    proof {
                        lemma_zip_fold_stuck(empty_tree(), es, i + 1);
                    }
                    return Err(VfsError::Io);
                }
                let par = path_parent(p.as_str());
                proof {
                    lemma_parent(p@);
                }
                let okd = tree.make_dirs(par.as_str());
                if !okd {
                    proof {
                        lemma_zip_fold_stuck(empty_tree(), es, i + 1);
                    }
                    return Err(VfsError::Io);
                }
                if tree.is_dir_at(p.as_str()) {
                    proof {
                        // p is longer than anything in its parent's ancestor
                        // set, so it was already a directory before
                        if !t0.dirs.contains(p@) {
                            assert(anc_or_self(par@).contains(p@));
                            lemma_anc_shorter(par@, p@);
                            assert(false);
                        }
                        lemma_zip_fold_stuck(empty_tree(), es, i + 1);
                    }
                    return Err(VfsError::Io);
                }
                proof {
                    assert(anc_or_self(par@).contains(par@));
                    if t0.dirs.contains(p@) {
                        assert(tree@.dirs.contains(p@));
                        assert(false);
                    }
                }
                tree.insert_file(p.as_str(), copy_bytes(&e.data));
                proof {
                    assert(tree@ =~= zip_add(t0, es[i as int]).unwrap());
                }
            }
            proof {
                assert(zip_fold(empty_tree(), es.subrange(0, i + 1)) == Some(tree@));
            }
            i += 1;
        }
        proof {
            assert(es.subrange(0, es.len() as int) =~= es);
        }
        Ok(Backend::Zip(ZipFs { source: source.to_owned(), tree }))
    }

    /// Whether this store rejects mutation.
    pub fn readonly(&self) -> (b: bool)
        ensures
            b == self@.readonly,
    {
        match self {
            Backend::Dir(d) => d.readonly,
            Backend::Zip(_) => true,
        }
    }

    /// The store's self-description: the root it was mounted over.
    pub fn desc(&self) -> (r: String)
        ensures
            r@ == self@.desc,
    {
        match self {
            Backend::Dir(d) => d.root.clone(),
            Backend::Zip(z) => z.source.clone(),
        }
    }

    /// A shared borrow of the contents.
    fn tree_ref(&self) -> (t: &Tree)
        ensures
            t@ == self@.tree,
            t.wf() == self.wf(),
    {
        match self {
            Backend::Dir(d) => &d.tree,
            Backend::Zip(z) => &z.tree,
        }
    }

    /// Whether `p` exists in this store; never an error.
    pub fn exists_at(&self, p: &str) -> (b: bool)
        requires
            self.wf(),
        ensures
            b == (self@.tree.dirs.contains(p@) || self@.tree.files.dom().contains(p@)),
    {
        self.tree_ref().contains_path(p)
    }

    /// A metadata snapshot of `p`: whether it is a file, and its size.
    pub fn metadata(&self, p: &str) -> (r: VfsResult<Metadata>)
        requires
            self.wf(),
        ensures
            match r {
                Ok(m) => (self@.tree.dirs.contains(p@) || self@.tree.files.dom().contains(p@))
                    && m.file == self@.tree.files.dom().contains(p@) && m.size == (
                if self@.tree.files.dom().contains(p@) {
                    self@.tree.files[p@].len() as int
                } else {
                    0
                }),
                Err(e) => e == VfsError::NotFound && !self@.tree.dirs.contains(p@)
                    && !self@.tree.files.dom().contains(p@),
            },
    {
        let t = self.tree_ref();
        match t.file_len(p) {
            Some(n) => Ok(Metadata { file: true, size: n }),
            None => {
                if t.is_dir_at(p) {
                    Ok(Metadata { file: false, size: 0 })
                } else {
                    Err(VfsError::NotFound)
                }
            },
        }
    }

    /// Open `p` for reading.  Fails with `NotFound` when `p` is not a
    /// file of this store — in particular when it is a directory.
    pub fn open(&self, p: &str) -> (r: VfsResult<File>)
        requires
            self.wf(),
        ensures
            match r {
                Ok(f) => self@.tree.files.dom().contains(p@) && f@ == (FileM {
                    path: p@,
                    data: self@.tree.files[p@],
                    pos: 0,
                    writable: false,
                }),
                Err(e) => e == VfsError::NotFound && !self@.tree.files.dom().contains(p@),
            },
    {
        match self.tree_ref().get_file(p) {
            Some(data) => {
                let f = File::Vfs(VfsFile { path: p.to_owned(), data, pos: 0, writable: false });
                proof {
                    assert(f@ =~= (FileM {
                        path: p@,
                        data: self@.tree.files[p@],
                        pos: 0,
                        writable: false,
                    }));
                }
                Ok(f)
            },
            None => Err(VfsError::NotFound),
        }
    }

    /// The direct children of directory `p`, as full virtual paths, each
    /// exactly once, in no particular order.  Fails with `NotFound` when
    /// `p` is not a directory of this store.
    pub fn read_dir(&self, p: &str) -> (r: VfsResult<Vec<String>>)
        requires
            self.wf(),
        ensures
            match r {
                Ok(v) => self@.tree.dirs.contains(p@) && listing_ok(self@.tree, p@, v@),
                Err(e) => e == VfsError::NotFound && !self@.tree.dirs.contains(p@),
            },
    {
        let t = self.tree_ref();
        if !t.is_dir_at(p) {
            return Err(VfsError::NotFound);
        }
        let v = t.children_of(p);
        proof {
            assert(t@.dirs == self@.tree.dirs);
            assert(t@.files == self@.tree.files);
        }
        Ok(v)
    }

    /// Open `p` with the given options.  Mutating options on a readonly
    /// store fail with `PermissionDenied` for every path; options with
    /// no storage meaning (neither read nor write) are rejected.
    pub fn open_options(&mut self, p: &str, opts: OpenOptions) -> (r: VfsResult<File>)
        requires
            old(self).wf(),
        ensures
            final(self).wf(),
            final(self)@.desc == old(self)@.desc,
            final(self)@.readonly == old(self)@.readonly,
            match r {
                Ok(f) => oo_ok(old(self)@.tree, old(self)@.readonly, p@, opts) && f@ == oo_handle(
                    old(self)@.tree,
                    p@,
                    opts,
                ) && final(self)@.tree == oo_tree(old(self)@.tree, p@, opts),
                Err(e) => !oo_ok(old(self)@.tree, old(self)@.readonly, p@, opts) && e == oo_err(
                    old(self)@.tree,
                    old(self)@.readonly,
                    p@,
                    opts,
                ) && *final(self) == *old(self),
            },
    {
        if !opts.wants_write() {
            if !opts.read {
                return Err(VfsError::Io);
            }
            match self.open(p) {
                Ok(f) => {
                    proof {
                        assert(f@ =~= oo_handle(old(self)@.tree, p@, opts));
                    }
                    Ok(f)
                },
                Err(_) => Err(VfsError::NotFound),
            }
        } else {
            if self.readonly() {
                return Err(VfsError::PermissionDenied);
            }
            match self {
                Backend::Dir(d) => oo_write(&mut d.tree, p, opts),
                Backend::Zip(_) => {
                    proof {
                        assert(false);
                    }
                    Err(VfsError::PermissionDenied)
                },
            }
        }
    }

    /// Create `p` for writing, truncating any file already there.
    pub fn create(&mut self, p: &str) -> (r: VfsResult<File>)
        requires
            old(self).wf(),
        ensures
            final(self).wf(),
            final(self)@.desc == old(self)@.desc,
            final(self)@.readonly == old(self)@.readonly,
            match r {
                Ok(f) => oo_ok(old(self)@.tree, old(self)@.readonly, p@, create_opts()) && f@
                    == oo_handle(old(self)@.tree, p@, create_opts()) && final(self)@.tree
                    == oo_tree(old(self)@.tree, p@, create_opts()),
                Err(e) => !oo_ok(old(self)@.tree, old(self)@.readonly, p@, create_opts()) && e
                    == oo_err(old(self)@.tree, old(self)@.readonly, p@, create_opts()) && *final(self) == *old(self),
            },
    {
        let opts = OpenOptions::new().write(true).create(true).truncate(true);
        proof {
            assert(opts == create_opts());
        }
        self.open_options(p, opts)
    }

    /// Make `p` a directory, creating missing ancestors; idempotent when
    /// it already is one.
    pub fn mkdir(&mut self, p: &str) -> (r: VfsResult<()>)
        requires
            old(self).wf(),
        ensures
            final(self).wf(),
            final(self)@.desc == old(self)@.desc,
            final(self)@.readonly == old(self)@.readonly,
            final(self)@.tree.files == old(self)@.tree.files,
            old(self)@.tree.dirs.subset_of(final(self)@.tree.dirs),
            match r {
                Ok(()) => !old(self)@.readonly && valid_path(p@) && mk_ok(old(self)@.tree, p@)
                    && final(self)@.tree.dirs == old(self)@.tree.dirs.union(anc_or_self(p@)),
                Err(e) => !(!old(self)@.readonly && valid_path(p@) && mk_ok(old(self)@.tree, p@))
                    && (if old(self)@.readonly {
                    e == VfsError::PermissionDenied && *final(self) == *old(self)
                } else if !valid_path(p@) {
                    e == VfsError::NotFound && *final(self) == *old(self)
                } else {
                    e == VfsError::AlreadyExists && final(self)@.tree.dirs.subset_of(
                        old(self)@.tree.dirs.union(anc_or_self(p@)),
                    )
                }),
            },
    {
        if self.readonly() {
            return Err(VfsError::PermissionDenied);
        }
        if !path_is_valid(p) {
            return Err(VfsError::NotFound);
        }
        match self {
            Backend::Dir(d) => {
                let ok = d.tree.make_dirs(p);
                if ok {
                    Ok(())
                } else {
                    Err(VfsError::AlreadyExists)
                }
            },
            Backend::Zip(_) => {
                proof {
                    assert(false);
                }
                Err(VfsError::PermissionDenied)
            },
        }
    }

    /// Remove exactly `p`: a file, or a directory with nothing below it.
    pub fn rm(&mut self, p: &str) -> (r: VfsResult<()>)
        requires
            old(self).wf(),
        ensures
            final(self).wf(),
            final(self)@.desc == old(self)@.desc,
            final(self)@.readonly == old(self)@.readonly,
            match r {
                Ok(()) => !old(self)@.readonly && rm_ok(old(self)@.tree, p@)
                    && final(self)@.tree.dirs == old(self)@.tree.dirs.remove(p@)
                    && final(self)@.tree.files == old(self)@.tree.files.remove(p@),
                Err(e) => !(!old(self)@.readonly && rm_ok(old(self)@.tree, p@)) && e == rm_err(
                    old(self)@.tree,
                    old(self)@.readonly,
                    p@,
                ) && *final(self) == *old(self),
            },
    {
        if self.readonly() {
            return Err(VfsError::PermissionDenied);
        }
        match self {
            Backend::Dir(d) => {
                if d.tree.is_file_at(p) {
                    d.tree.remove_path(p);
                    return Ok(());
                }
                if !d.tree.is_dir_at(p) {
                    return Err(VfsError::NotFound);
                }
                if path_is_root(p) {
                    proof {
                        d.tree.lemma_wf_props();
                    }
                    return Err(VfsError::Io);
                }
                if d.tree.has_descendant(p) {
                    return Err(VfsError::Io);
                }
                d.tree.remove_path(p);
                Ok(())
            },
            Backend::Zip(_) => {
                proof {
                    assert(false);
                }
                Err(VfsError::PermissionDenied)
            },
        }
    }

    /// Remove `p` and everything below it.
    pub fn rmrf(&mut self, p: &str) -> (r: VfsResult<()>)
        requires
            old(self).wf(),
        ensures
            final(self).wf(),
            final(self)@.desc == old(self)@.desc,
            final(self)@.readonly == old(self)@.readonly,
            match r {
                Ok(()) => !old(self)@.readonly && (old(self)@.tree.dirs.contains(p@)
                    || old(self)@.tree.files.dom().contains(p@)) && final(self)@.tree.dirs
                    == old(self)@.tree.dirs.difference(doomed_by(p@)).insert(root_path())
                    && final(self)@.tree.files == old(self)@.tree.files.remove_keys(doomed_by(p@)),
                Err(e) => *final(self) == *old(self) && (if old(self)@.readonly {
                    e == VfsError::PermissionDenied
                } else {
                    e == VfsError::NotFound && !old(self)@.tree.dirs.contains(p@)
                        && !old(self)@.tree.files.dom().contains(p@)
                }),
            },
    {
        if self.readonly() {
            return Err(VfsError::PermissionDenied);
        }
        match self {
            Backend::Dir(d) => {
                if !d.tree.contains_path(p) {
                    return Err(VfsError::NotFound);
                }
                d.tree.remove_tree(p);
                Ok(())
            },
            Backend::Zip(_) => {
                proof {
                    assert(false);
                }
                Err(VfsError::PermissionDenied)
            },
        }
    }

    /// Replace the contents of the existing file `p`: how a writable
    /// handle is committed back into its store.
    pub fn write_back(&mut self, p: &str, data: Vec<u8>) -> (r: VfsResult<()>)
        requires
            old(self).wf(),
        ensures
            final(self).wf(),
            final(self)@.desc == old(self)@.desc,
            final(self)@.readonly == old(self)@.readonly,
            match r {
                Ok(()) => !old(self)@.readonly && old(self)@.tree.files.dom().contains(p@)
                    && final(self)@.tree.dirs == old(self)@.tree.dirs && final(self)@.tree.files
                    == old(self)@.tree.files.insert(p@, data@),
                Err(e) => *final(self) == *old(self) && (if old(self)@.readonly {
                    e == VfsError::PermissionDenied
                } else {
                    e == VfsError::NotFound && !old(self)@.tree.files.dom().contains(p@)
                }),
            },
    {
        if self.readonly() {
            return Err(VfsError::PermissionDenied);
        }
        match self {
            Backend::Dir(d) => {
                if !d.tree.is_file_at(p) {
                    return Err(VfsError::NotFound);
                }
                proof {
                    d.tree.lemma_wf_props();
                }
                d.tree.insert_file(p, data);
                Ok(())
            },
            Backend::Zip(_) => {
                proof {
                    assert(false);
                }
                Err(VfsError::PermissionDenied)
            },
        }
    }

    /// Record that the file `p` with the given contents is already
    /// present in the mounted storage, creating the directories above
    /// it.  This bypasses the write policy: it describes what is there,
    /// it does not write anything.
    pub fn load(&mut self, p: &str, data: Vec<u8>) -> (r: VfsResult<()>)
        requires
            old(self).wf(),
        ensures
            final(self).wf(),
            final(self)@.desc == old(self)@.desc,
            final(self)@.readonly == old(self)@.readonly,
            match r {
                Ok(()) => valid_path(p@) && !is_root(p@) && mk_ok(old(self)@.tree, parent_of(p@))
                    && !old(self)@.tree.dirs.contains(p@) && final(self)@.tree == (TreeM {
                    dirs: old(self)@.tree.dirs.union(anc_or_self(parent_of(p@))),
                    files: old(self)@.tree.files.insert(p@, data@),
                }),
                Err(e) => final(self)@.tree.files == old(self)@.tree.files && (if !valid_path(p@)
                    || is_root(p@) {
                    e == VfsError::NotFound && *final(self) == *old(self)
                } else if !mk_ok(old(self)@.tree, parent_of(p@)) {
                    e == VfsError::AlreadyExists && old(self)@.tree.dirs.subset_of(
                        final(self)@.tree.dirs,
                    ) && final(self)@.tree.dirs.subset_of(
                        old(self)@.tree.dirs.union(anc_or_self(parent_of(p@))),
                    )
                } else {
                    e == VfsError::Io && old(self)@.tree.dirs.contains(p@) && final(self)@.tree
                        == (TreeM {
                        dirs: old(self)@.tree.dirs.union(anc_or_self(parent_of(p@))),
                        files: old(self)@.tree.files,
                    })
                }),
            },
    {
        if !path_is_valid(p) || path_is_root(p) {
            return Err(VfsError::NotFound);
        }
        let par = path_parent(p);
        proof {
            lemma_parent(p@);
        }
        let ghost t0 = self@.tree;
        match self {
            Backend::Dir(d) => {
                let okd = d.tree.make_dirs(par.as_str());
                if !okd {
                    return Err(VfsError::AlreadyExists);
                }
                if d.tree.is_dir_at(p) {
                    proof {
                        if !t0.dirs.contains(p@) {
                            assert(anc_or_self(par@).contains(p@));
                            lemma_anc_shorter(par@, p@);
                            assert(false);
                        }
                    }
                    return Err(VfsError::Io);
                }
                proof {
                    assert(anc_or_self(par@).contains(par@));
                }
                d.tree.insert_file(p, data);
                proof {
                    assert(final(self)@.tree =~= (TreeM {
                        dirs: t0.dirs.union(anc_or_self(parent_of(p@))),
                        files: t0.files.insert(p@, data@),
                    }));
                }
                Ok(())
            },
            Backend::Zip(z) => {
                let okd = z.tree.make_dirs(par.as_str());
                if !okd {
                    return Err(VfsError::AlreadyExists);
                }
                if z.tree.is_dir_at(p) {
                    proof {
                        if !t0.dirs.contains(p@) {
                            assert(anc_or_self(par@).contains(p@));
                            lemma_anc_shorter(par@, p@);
                            assert(false);
                        }
                    }
                    return Err(VfsError::Io);
                }
                proof {
                    assert(anc_or_self(par@).contains(par@));
                }
                z.tree.insert_file(p, data);
                proof {
                    assert(final(self)@.tree =~= (TreeM {
                        dirs: t0.dirs.union(anc_or_self(parent_of(p@))),
                        files: t0.files.insert(p@, data@),
                    }));
                }
                Ok(())
            },
        }
    }
}

} // verus!
