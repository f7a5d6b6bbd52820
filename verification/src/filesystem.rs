//! The filesystem facade.
//!
//! A `Filesystem` owns one overlay and remembers four root paths for
//! introspection: the resources directory beside the executable, the
//! resources archive beside it, and the platform user-data and
//! user-config directories.  The default overlay is assembled in that
//! order, front to back; the archive store is omitted when there is no
//! archive, the user stores when the platform reports no home for them.
//! On top of the generic operations the facade offers a configuration
//! round-trip through the well-known path `/conf.toml` and a diagnostic
//! dump of every store.
//!
//! What only the surrounding program can supply — the executable's own
//! directory, the bytes of the archive, the real directory contents —
//! is handed in as plain values; the platform directories come from an
//! outside crate through one trusted call.

use vstd::prelude::*;
use vstd::string::*;
use crate::backend::{create_opts, mk_ok, rm_ok, Backend, BackendM, zip_fold};
use crate::overlay::{
    first_idx, spec_exists, spec_metadata, spec_oo, spec_open, spec_rmrf, spec_write_back,
    OverlayFs, Probe,
};
use crate::tree::{empty_tree, listing_ok, tree_props, TreeM};
use crate::types::{Metadata, OpenOptions, RawEntry, RawEntryM, VfsError, VfsResult};
use crate::file::{write_at, File, FileM};
use crate::vpath::{anc_or_self, is_root, parent_of, root_path, valid_path};

verus! {

/// The well-known virtual path of the configuration file.
pub open spec fn conf_path() -> Seq<char> {
    "/conf.toml"@
}

/// `dir` and `name` joined with a single separator.
pub open spec fn join_spec(dir: Seq<char>, name: Seq<char>) -> Seq<char> {
    dir + seq!['/'] + name
}

/// `dir` and `name` joined with a single separator.
pub fn join_path(dir: &str, name: &str) -> (r: String)
    ensures
        r@ == join_spec(dir@, name@),
{
    proof {
        reveal_strlit("/");
    }
    let r = String::from_str(dir).concat("/").concat(name);
    proof {
        assert(r@ =~= join_spec(dir@, name@));
    }
    r
}

/// The default store order: the resources directory (writable), the
/// resources archive if present (readonly), and the platform user-data
/// and user-config directories if known (both writable).
pub open spec fn spec_assemble(
    res_dir: Seq<char>,
    zip_dir: Seq<char>,
    zip_tree: Option<TreeM>,
    dirs: Option<(Seq<char>, Seq<char>)>,
) -> Seq<BackendM> {
    let base = seq![BackendM { desc: res_dir, readonly: false, tree: empty_tree() }];
    let with_zip = match zip_tree {
        Some(t) => base.push(BackendM { desc: zip_dir, readonly: true, tree: t }),
        None => base,
    };
    match dirs {
        Some((d, c)) => with_zip.push(BackendM { desc: d, readonly: false, tree: empty_tree() })
            .push(BackendM { desc: c, readonly: false, tree: empty_tree() }),
        None => with_zip,
    }
}

/// The archive store's contents, from the archive's entry list; nothing
/// when no archive was found beside the executable.
pub open spec fn zip_tree_arg(z: Option<&Vec<RawEntry>>) -> Option<TreeM> {
    match z {
        Some(es) => Some(zip_fold(empty_tree(), es@.map_values(|e: RawEntry| e@)).unwrap()),
        None => None,
    }
}

/// Whether the archive's entry list, if one was handed in, indexes
/// cleanly.
pub open spec fn zip_entries_ok(z: Option<&Vec<RawEntry>>) -> bool {
    match z {
        Some(es) => zip_fold(empty_tree(), es@.map_values(|e: RawEntry| e@)) is Some,
        None => true,
    }
}

/// Whether `p` resolves to a file: the first store holding it holds it
/// as a file.
pub open spec fn spec_is_file(ov: Seq<BackendM>, p: Seq<char>) -> bool {
    match spec_metadata(ov, p) {
        Ok(m) => m.file,
        Err(_) => false,
    }
}

/// Whether `p` resolves to a directory.
pub open spec fn spec_is_dir(ov: Seq<BackendM>, p: Seq<char>) -> bool {
    match spec_metadata(ov, p) {
        Ok(m) => !m.file,
        Err(_) => false,
    }
}

/// An empty query means the root.
pub open spec fn norm_query(p: Seq<char>) -> Seq<char> {
    if p.len() == 0 {
        root_path()
    } else {
        p
    }
}

/// The outcome of reading the configuration file: its bytes when it
/// resolves to a file, the configuration error when it is absent.
pub open spec fn spec_read_config(ov: Seq<BackendM>) -> Result<Seq<u8>, VfsError> {
    if spec_is_file(ov, conf_path()) {
        match spec_open(ov, conf_path()) {
            Ok(f) => Ok(f.data),
            Err(e) => Err(e),
        }
    } else {
        Err(VfsError::Config)
    }
}

/// The overlay state and outcome of writing the configuration file:
/// create it in the first writable store, commit the bytes, then verify
/// that it resolves to a file.
pub open spec fn spec_write_config(ov: Seq<BackendM>, d: Seq<u8>) -> (Seq<BackendM>, Result<
    (),
    VfsError,
>) {
    let step = spec_oo(ov, conf_path(), create_opts());
    match step.1 {
        Err(e) => (step.0, Err(e)),
        Ok(_) => {
            let committed = spec_write_back(step.0, conf_path(), d);
            match committed.1 {
                Err(e) => (committed.0, Err(e)),
                Ok(_) => if spec_is_file(committed.0, conf_path()) {
                    (committed.0, Ok(()))
                } else {
                    (committed.0, Err(VfsError::Config))
                },
            }
        },
    }
}

/// One listing's contribution to the diagnostic dump: two spaces
/// before each entry.
pub open spec fn dump_items(items: Seq<String>) -> Seq<char>
    decreases items.len(),
{
    if items.len() == 0 {
        Seq::<char>::empty()
    } else {
        dump_items(items.drop_last()) + "  "@ + items.last()@
    }
}

/// The diagnostic dump: one section per store, in overlay order, naming
/// the store's root and listing the entries directly under it.
pub open spec fn dump_of(ov: Seq<BackendM>, ls: Seq<Seq<String>>) -> Seq<char>
    recommends
        ov.len() == ls.len(),
    decreases ov.len(),
{
    if ov.len() == 0 {
        Seq::<char>::empty()
    } else {
        dump_of(ov.drop_last(), ls.drop_last()) + "Source "@ + ov.last().desc + dump_items(
            ls.last(),
        ) + "\n"@
    }
}

/// Relies on `directories::ProjectDirs::from` and its `data_local_dir`
/// and `config_dir` accessors: the platform per-user data and config
/// directories for this author and application, or nothing when the
/// platform reports no home directory.  The result depends on the
/// environment, so nothing is promised of it.
#[verifier::external_body]
fn platform_project_dirs(author: &str, id: &str) -> (r: Option<(String, String)>) {
    directories::ProjectDirs::from("", author, id).map(
        |d|
            (
                d.data_local_dir().to_string_lossy().into_owned(),
                d.config_dir().to_string_lossy().into_owned(),
            ),
    )
}

/// A structure that contains the filesystem state: the overlay and the
/// four remembered root paths.
#[derive(Debug)]
pub struct Filesystem {
    vfs: OverlayFs,
    resources_dir: String,
    zip_dir: String,
    user_config_dir: String,
    user_data_dir: String,
}

impl View for Filesystem {
    type V = Seq<BackendM>;

    closed spec fn view(&self) -> Seq<BackendM> {
        self.vfs@
    }
}

impl Filesystem {
    /// All stores have well-formed contents.
    pub closed spec fn wf(&self) -> bool {
        self.vfs.wf()
    }

    /// The consequences of well-formedness, for every store at once:
    /// the root directory exists, parents are closed, and no path is
    /// both a file and a directory.  Callers use this to discharge the
    /// premises of the resolution laws.
    pub proof fn lemma_wf_props(&self)
        requires
            self.wf(),
        ensures
            forall|i: int| 0 <= i < self@.len() ==> tree_props((#[trigger] self@[i]).tree),
    {
        self.vfs.lemma_wf_props();
    }

    /// The remembered resources directory.
    pub closed spec fn spec_resources_dir(&self) -> Seq<char> {
        self.resources_dir@
    }

    /// The remembered archive path.
    pub closed spec fn spec_zip_dir(&self) -> Seq<char> {
        self.zip_dir@
    }

    /// The remembered user-config directory.
    pub closed spec fn spec_user_config_dir(&self) -> Seq<char> {
        self.user_config_dir@
    }

    /// The remembered user-data directory.
    pub closed spec fn spec_user_data_dir(&self) -> Seq<char> {
        self.user_data_dir@
    }

    /// Assemble the default overlay from already resolved roots: the
    /// executable-adjacent resources directory, the archive's entries if
    /// the archive file exists, and the platform directories if known.
    pub fn with_platform_dirs(
        resources_dir_name: &str,
        resources_zip_name: &str,
        exe_dir: &str,
        zip_entries: Option<&Vec<RawEntry>>,
        dirs: Option<(String, String)>,
    ) -> (r: VfsResult<Filesystem>)
        ensures
            match r {
                Ok(fs) => {
                    &&& fs.wf()
                    &&& zip_entries_ok(zip_entries)
                    &&& fs@ == spec_assemble(
                        join_spec(exe_dir@, resources_dir_name@),
                        join_spec(exe_dir@, resources_zip_name@),
                        zip_tree_arg(zip_entries),
                        match dirs {
                            Some((d, c)) => Some((d@, c@)),
                            None => None,
                        },
                    )
                    &&& fs.spec_resources_dir() == join_spec(exe_dir@, resources_dir_name@)
                    &&& fs.spec_zip_dir() == join_spec(exe_dir@, resources_zip_name@)
                    &&& fs.spec_user_data_dir() == (match dirs {
                        Some((d, _)) => d@,
                        None => Seq::<char>::empty(),
                    })
                    &&& fs.spec_user_config_dir() == (match dirs {
                        Some((_, c)) => c@,
                        None => Seq::<char>::empty(),
                    })
                },
                Err(e) => e == VfsError::Io && !zip_entries_ok(zip_entries),
            },
    {
        let ghost dirs_v: Option<(Seq<char>, Seq<char>)> = match &dirs {
            Some((d, c)) => Some((d@, c@)),
            None => None,
        };
        let resources_path = join_path(exe_dir, resources_dir_name);
        let resources_zip_path = join_path(exe_dir, resources_zip_name);
        let mut overlay = OverlayFs::new();
        overlay.push_back(Backend::new_dir(resources_path.as_str(), false));
        match zip_entries {
            Some(es) => {
                match Backend::new_zip(resources_zip_path.as_str(), es) {
                    Ok(z) => {
                        overlay.push_back(z);
                    },
                    Err(e) => {
                        return Err(e);
                    },
                }
            },
            None => {},
        }
        let mut user_data_path = String::new();
        let mut user_config_path = String::new();
        match dirs {
            Some((d, c)) => {
                overlay.push_back(Backend::new_dir(d.as_str(), false));
                overlay.push_back(Backend::new_dir(c.as_str(), false));
                user_data_path = d;
                user_config_path = c;
            },
            None => {},
        }
        let fs = Filesystem {
            vfs: overlay,
            resources_dir: resources_path,
            zip_dir: resources_zip_path,
            user_config_dir: user_config_path,
            user_data_dir: user_data_path,
        };
        proof {
            assert(fs@ =~= spec_assemble(
                join_spec(exe_dir@, resources_dir_name@),
                join_spec(exe_dir@, resources_zip_name@),
                zip_tree_arg(zip_entries),
                dirs_v,
            ));
        }
        Ok(fs)
    }

    /// Create a new `Filesystem`, resolving the platform user
    /// directories for this `id` and `author`.  The executable's own
    /// directory and the archive's decoded entries, if an archive file
    /// lies beside the executable, are handed in by the caller.
    pub fn new(
        id: &str,
        author: &str,
        resources_dir_name: &str,
        resources_zip_name: &str,
        exe_dir: &str,
        zip_entries: Option<&Vec<RawEntry>>,
    ) -> (r: VfsResult<Filesystem>)
        ensures
            match r {
                Ok(fs) => {
                    &&& fs.wf()
                    &&& zip_entries_ok(zip_entries)
                    &&& fs.spec_resources_dir() == join_spec(exe_dir@, resources_dir_name@)
                    &&& fs.spec_zip_dir() == join_spec(exe_dir@, resources_zip_name@)
                    &&& exists|dirs: Option<(Seq<char>, Seq<char>)>|
                        fs@ == #[trigger] spec_assemble(
                            join_spec(exe_dir@, resources_dir_name@),
                            join_spec(exe_dir@, resources_zip_name@),
                            zip_tree_arg(zip_entries),
                            dirs,
                        )
                },
                Err(e) => e == VfsError::Io && !zip_entries_ok(zip_entries),
            },
    {
        let dirs = platform_project_dirs(author, id);
        let ghost dirs_v: Option<(Seq<char>, Seq<char>)> = match &dirs {
            Some((d, c)) => Some((d@, c@)),
            None => None,
        };
        let r = Self::with_platform_dirs(
            resources_dir_name,
            resources_zip_name,
            exe_dir,
            zip_entries,
            dirs,
        );
        proof {
            match &r {
                Ok(fs) => {
                    assert(fs@ == spec_assemble(
                        join_spec(exe_dir@, resources_dir_name@),
                        join_spec(exe_dir@, resources_zip_name@),
                        zip_tree_arg(zip_entries),
                        dirs_v,
                    ));
                },
                Err(_) => {},
            }
        }
        r
    }

    /// Opens the given path and returns the resulting `File` in
    /// read-only mode.
    pub fn open(&self, path: &str) -> (r: VfsResult<File>)
        requires
            self.wf(),
        ensures
            match r {
                Ok(f) => spec_open(self@, path@) == Ok::<FileM, VfsError>(f@),
                Err(e) => spec_open(self@, path@) == Err::<FileM, VfsError>(e),
            },
    {
        self.vfs.open(path)
    }

    /// Opens a file with the given options.  Mutating options route the
    /// open to the first writable store.  On failure the error kind is
    /// returned as a value; `describe_open_failure` renders it with the
    /// attempted path for diagnostics.
    pub fn open_options(&mut self, path: &str, options: OpenOptions) -> (r: VfsResult<File>)
        requires
            old(self).wf(),
        ensures
            final(self).wf(),
            final(self)@ == spec_oo(old(self)@, path@, options).0,
            unchanged_roots(old(self), final(self)),
            match r {
                Ok(f) => spec_oo(old(self)@, path@, options).1 == Ok::<FileM, VfsError>(f@),
                Err(e) => spec_oo(old(self)@, path@, options).1 == Err::<FileM, VfsError>(e),
            },
    {
        self.vfs.open_options(path, options)
    }

    /// Creates a file in the first writable store and opens it to be
    /// written to, truncating it if it already exists.
    pub fn create(&mut self, path: &str) -> (r: VfsResult<File>)
        requires
            old(self).wf(),
        ensures
            final(self).wf(),
            final(self)@ == spec_oo(old(self)@, path@, create_opts()).0,
            unchanged_roots(old(self), final(self)),
            match r {
                Ok(f) => spec_oo(old(self)@, path@, create_opts()).1 == Ok::<FileM, VfsError>(f@),
                Err(e) => spec_oo(old(self)@, path@, create_opts()).1 == Err::<FileM, VfsError>(e),
            },
    {
        self.vfs.create(path)
    }

    /// Commit a handle: the contents of a writable handle replace the
    /// file in the first writable store holding it; a read-only handle
    /// is simply dropped.
    pub fn close(&mut self, f: File) -> (r: VfsResult<()>)
        requires
            old(self).wf(),
        ensures
            final(self).wf(),
            unchanged_roots(old(self), final(self)),
            !f@.writable ==> final(self)@ == old(self)@ && r == Ok::<(), VfsError>(()),
            f@.writable ==> final(self)@ == spec_write_back(old(self)@, f@.path, f@.data).0
                && (match r {
                Ok(()) => spec_write_back(old(self)@, f@.path, f@.data).1 == Ok::<(), VfsError>(()),
                Err(e) => spec_write_back(old(self)@, f@.path, f@.data).1 == Err::<(), VfsError>(e),
            }),
    {
        if !f.writable() {
            return Ok(());
        }
        match f {
            File::Vfs(h) => self.vfs.write_back(h.path.as_str(), h.data),
        }
    }

    /// Create an empty directory, and any missing parents, in the first
    /// writable store.
    pub fn create_dir(&mut self, path: &str) -> (r: VfsResult<()>)
        requires
            old(self).wf(),
        ensures
            final(self).wf(),
            unchanged_roots(old(self), final(self)),
            match first_idx(Probe::Writable, old(self)@, path@) {
                None => r == Err::<(), VfsError>(VfsError::PermissionDenied) && final(self)@
                    == old(self)@,
                Some(w) => {
                    &&& final(self)@.len() == old(self)@.len()
                    &&& forall|k: int|
                        0 <= k < old(self)@.len() && k != w ==> final(self)@[k] == old(self)@[k]
                    &&& final(self)@[w].desc == old(self)@[w].desc
                    &&& final(self)@[w].readonly == old(self)@[w].readonly
                    &&& final(self)@[w].tree.files == old(self)@[w].tree.files
                    &&& match r {
                        Ok(()) => valid_path(path@) && mk_ok(old(self)@[w].tree, path@)
                            && final(self)@[w].tree.dirs == old(self)@[w].tree.dirs.union(
                            anc_or_self(path@),
                        ),
                        Err(e) => !(valid_path(path@) && mk_ok(old(self)@[w].tree, path@)) && old(
                            self,
                        )@[w].tree.dirs.subset_of(final(self)@[w].tree.dirs)
                            && final(self)@[w].tree.dirs.subset_of(
                            old(self)@[w].tree.dirs.union(anc_or_self(path@)),
                        ) && (if !valid_path(path@) {
                            e == VfsError::NotFound
                        } else {
                            e == VfsError::AlreadyExists
                        }),
                    }
                },
            },
    {
        self.vfs.mkdir(path)
    }

    /// Deletes the given file, or empty directory, from the first
    /// writable store that contains it.
    pub fn delete(&mut self, path: &str) -> (r: VfsResult<()>)
        requires
            old(self).wf(),
        ensures
            final(self).wf(),
            unchanged_roots(old(self), final(self)),
            match first_idx(Probe::WritableEntry, old(self)@, path@) {
                None => r == Err::<(), VfsError>(VfsError::NotFound) && final(self)@ == old(self)@,
                Some(w) => match r {
                    Ok(()) => rm_ok(old(self)@[w].tree, path@) && final(self)@ == old(self)@.update(
                        w,
                        BackendM {
                            tree: TreeM {
                                dirs: old(self)@[w].tree.dirs.remove(path@),
                                files: old(self)@[w].tree.files.remove(path@),
                            },
                            ..old(self)@[w]
                        },
                    ),
                    Err(e) => !rm_ok(old(self)@[w].tree, path@) && final(self)@ == old(self)@
                        && e == VfsError::Io,
                },
            },
    {
        self.vfs.rm(path)
    }

    /// Deletes the given directory, and everything under it, from the
    /// first writable store that contains it.
    pub fn delete_dir(&mut self, path: &str) -> (r: VfsResult<()>)
        requires
            old(self).wf(),
        ensures
            final(self).wf(),
            unchanged_roots(old(self), final(self)),
            final(self)@ == spec_rmrf(old(self)@, path@).0,
            match r {
                Ok(()) => spec_rmrf(old(self)@, path@).1 == Ok::<(), VfsError>(()),
                Err(e) => spec_rmrf(old(self)@, path@).1 == Err::<(), VfsError>(e),
            },
    {
        self.vfs.rmrf(path)
    }

    /// Check whether a file or directory exists; never an error.
    pub fn exists_at(&self, path: &str) -> (b: bool)
        requires
            self.wf(),
        ensures
            b == spec_exists(self@, path@),
    {
        self.vfs.exists_at(path)
    }

    /// Check whether a path points at a file; any failure collapses to
    /// false.
    pub fn is_file(&self, path: &str) -> (b: bool)
        requires
            self.wf(),
        ensures
            b == spec_is_file(self@, path@),
    {
        match self.vfs.metadata(path) {
            Ok(m) => m.is_file(),
            Err(_) => false,
        }
    }

    /// Check whether a path points at a directory; any failure collapses
    /// to false.
    pub fn is_dir(&self, path: &str) -> (b: bool)
        requires
            self.wf(),
        ensures
            b == spec_is_dir(self@, path@),
    {
        match self.vfs.metadata(path) {
            Ok(m) => m.is_dir(),
            Err(_) => false,
        }
    }

    /// A metadata snapshot of the path from the first store holding it.
    pub fn metadata(&self, path: &str) -> (r: VfsResult<Metadata>)
        requires
            self.wf(),
        ensures
            match r {
                Ok(m) => spec_metadata(self@, path@) == Ok::<Metadata, VfsError>(m),
                Err(e) => spec_metadata(self@, path@) == Err::<Metadata, VfsError>(e),
            },
    {
        self.vfs.metadata(path)
    }

    /// Lists all files and directories in the given directory, from the
    /// first store holding it; the base directory if the path is empty.
    pub fn read_dir(&self, path: &str) -> (r: VfsResult<Vec<String>>)
        requires
            self.wf(),
        ensures
            match r {
                Ok(v) => (match first_idx(Probe::Dir, self@, norm_query(path@)) {
                    Some(i) => listing_ok(self@[i].tree, norm_query(path@), v@),
                    None => false,
                }),
                Err(e) => e == VfsError::NotFound && first_idx(
                    Probe::Dir,
                    self@,
                    norm_query(path@),
                ) is None,
            },
    {
        if path.unicode_len() == 0 {
            proof {
                reveal_strlit("/");
                assert("/"@ =~= root_path());
            }
            self.vfs.read_dir("/")
        } else {
            self.vfs.read_dir(path)
        }
    }

    /// One section per store: its root and the entries directly under
    /// it, in overlay order.  Useful for debugging; the surrounding
    /// program prints or logs it.
    pub fn write_to_string(&self) -> (r: String)
        requires
            self.wf(),
        ensures
            exists|ls: Seq<Seq<String>>|
                {
                    &&& ls.len() == self@.len()
                    &&& forall|k: int|
                        0 <= k < ls.len() ==> listing_ok(
                            self@[k].tree,
                            root_path(),
                            #[trigger] ls[k],
                        )
                    &&& r@ == #[trigger] dump_of(self@, ls)
                },
    {
        proof {
            self.vfs.lemma_wf_props();
            reveal_strlit("/");
            assert("/"@ =~= root_path());
        }
        let mut s = String::new();
        let ghost mut ls: Seq<Seq<String>> = Seq::empty();
        let mut i: usize = 0;
        proof {
            assert(self@.subrange(0, 0) =~= Seq::<BackendM>::empty());
            assert(s@ =~= dump_of(self@.subrange(0, 0), ls));
        }
        while i < self.vfs.count()
            invariant
                self.wf(),
                0 <= i <= self@.len(),
                ls.len() == i,
                "/"@ == root_path(),
                forall|k: int| 0 <= k < self@.len() ==> tree_props((#[trigger] self@[k]).tree),
                forall|k: int|
                    0 <= k < i ==> listing_ok(self@[k].tree, root_path(), #[trigger] ls[k]),
                s@ == dump_of(self@.subrange(0, i as int), ls),
            decreases self@.len() - i,
        {
            s.append("Source ");
            let d = self.vfs.desc_of(i);
            s.append(d.as_str());
            let ghost pre = s@;
            let items = match self.vfs.read_dir_of(i, "/") {
                Ok(items) => items,
                Err(_) => {
                    proof {
                        // the root directory exists in every well-formed
                        // store, so the root listing cannot fail
                        assert(tree_props(self@[i as int].tree));
                        assert(false);
                    }
                    Vec::new()
                },
            };
            proof {
                assert(items@.subrange(0, 0) =~= Seq::<String>::empty());
                assert(s@ =~= pre + dump_items(items@.subrange(0, 0)));
            }
            let mut j: usize = 0;
            while j < items.len()
                invariant
                    0 <= j <= items@.len(),
                    s@ == pre + dump_items(items@.subrange(0, j as int)),
                decreases items@.len() - j,
            {
                s.append("  ");
                s.append(items[j].as_str());
                proof {
                    let part = items@.subrange(0, j + 1);
                    assert(part.drop_last() =~= items@.subrange(0, j as int));
                    assert(part.last() == items@[j as int]);
                    assert(s@ =~= pre + dump_items(part));
                }
                j += 1;
            }
            s.append("\n");
            proof {
                let ls0 = ls;
                ls = ls.push(items@);
                assert(items@.subrange(0, items@.len() as int) =~= items@);
                assert(listing_ok(self@[i as int].tree, root_path(), items@));
                let a = self@.subrange(0, i + 1);
                assert(a.drop_last() =~= self@.subrange(0, i as int));
                assert(a.last() == self@[i as int]);
                assert(ls.drop_last() =~= ls0);
                assert(ls.last() == items@);
                assert(s@ =~= dump_of(a, ls));
            }
            i += 1;
        }
        proof {
            assert(self@.subrange(0, self@.len() as int) =~= self@);
            assert(ls.len() == self@.len() && (forall|k: int|
                0 <= k < ls.len() ==> listing_ok(self@[k].tree, root_path(), #[trigger] ls[k]))
                && s@ == dump_of(self@, ls));
        }
        s
    }

    /// Adds the given real directory to the end of the store list, as
    /// the lowest-priority store.
    pub fn mount(&mut self, path: &str, readonly: bool)
        requires
            old(self).wf(),
        ensures
            final(self).wf(),
            unchanged_roots(old(self), final(self)),
            final(self)@ == old(self)@.push(
                BackendM { desc: path@, readonly, tree: empty_tree() },
            ),
    {
        self.vfs.push_back(Backend::new_dir(path, readonly));
    }

    /// Adds the given real directory as the highest-priority store: a
    /// path it holds resolves to it from now on.
    pub fn mount_front(&mut self, path: &str, readonly: bool)
        requires
            old(self).wf(),
        ensures
            final(self).wf(),
            unchanged_roots(old(self), final(self)),
            final(self)@ == seq![BackendM { desc: path@, readonly, tree: empty_tree() }] + old(
                self,
            )@,
    {
        self.vfs.push_front(Backend::new_dir(path, readonly));
    }

    /// Adds an archive, decoded into its entry list, to the end of the
    /// store list.
    pub fn add_zip_file(&mut self, entries: &Vec<RawEntry>) -> (r: VfsResult<()>)
        requires
            old(self).wf(),
        ensures
            final(self).wf(),
            unchanged_roots(old(self), final(self)),
            match r {
                Ok(()) => zip_fold(empty_tree(), entries@.map_values(|e: RawEntry| e@)) is Some
                    && final(self)@ == old(self)@.push(
                    BackendM {
                        desc: Seq::<char>::empty(),
                        readonly: true,
                        tree: zip_fold(
                            empty_tree(),
                            entries@.map_values(|e: RawEntry| e@),
                        ).unwrap(),
                    },
                ),
                Err(e) => e == VfsError::Io && final(self)@ == old(self)@ && zip_fold(
                    empty_tree(),
                    entries@.map_values(|e: RawEntry| e@),
                ) is None,
            },
    {
        match Backend::new_zip("", entries) {
            Ok(z) => {
                proof {
                    reveal_strlit("");
                    assert(z@ =~= (BackendM {
                        desc: Seq::<char>::empty(),
                        readonly: true,
                        tree: zip_fold(empty_tree(), entries@.map_values(|e: RawEntry| e@)).unwrap(),
                    }));
                }
                self.vfs.push_back(z);
                Ok(())
            },
            Err(e) => Err(e),
        }
    }

    /// Record that a file with the given contents is already present in
    /// the real storage mounted at store position `i`, creating the
    /// directories above it.  This is how the surrounding program hands
    /// the overlay what is on disk; it bypasses the write policy.
    pub fn preload(&mut self, i: usize, path: &str, data: Vec<u8>) -> (r: VfsResult<()>)
        requires
            old(self).wf(),
            i < old(self)@.len(),
        ensures
            final(self).wf(),
            unchanged_roots(old(self), final(self)),
            final(self)@.len() == old(self)@.len(),
            forall|k: int|
                0 <= k < old(self)@.len() && k != i ==> final(self)@[k] == old(self)@[k],
            final(self)@[i as int].desc == old(self)@[i as int].desc,
            final(self)@[i as int].readonly == old(self)@[i as int].readonly,
            match r {
                Ok(()) => valid_path(path@) && !is_root(path@) && mk_ok(
                    old(self)@[i as int].tree,
                    parent_of(path@),
                ) && !old(self)@[i as int].tree.dirs.contains(path@) && final(self)@[i as int].tree
                    == (TreeM {
                    dirs: old(self)@[i as int].tree.dirs.union(anc_or_self(parent_of(path@))),
                    files: old(self)@[i as int].tree.files.insert(path@, data@),
                }),
                Err(e) => final(self)@[i as int].tree.files == old(self)@[i as int].tree.files && (
                if !valid_path(path@) || is_root(path@) {
                    e == VfsError::NotFound && final(self)@[i as int] == old(self)@[i as int]
                } else if !mk_ok(old(self)@[i as int].tree, parent_of(path@)) {
                    e == VfsError::AlreadyExists && old(self)@[i as int].tree.dirs.subset_of(
                        final(self)@[i as int].tree.dirs,
                    ) && final(self)@[i as int].tree.dirs.subset_of(
                        old(self)@[i as int].tree.dirs.union(anc_or_self(parent_of(path@))),
                    )
                } else {
                    e == VfsError::Io && old(self)@[i as int].tree.dirs.contains(path@)
                        && final(self)@[i as int].tree == (TreeM {
                        dirs: old(self)@[i as int].tree.dirs.union(anc_or_self(parent_of(path@))),
                        files: old(self)@[i as int].tree.files,
                    })
                }),
            },
    {
        self.vfs.load_into(i, path, data)
    }

    /// Looks for a file named `/conf.toml` in the resolution order and
    /// returns its bytes; reports the configuration error when it is not
    /// there.
    pub fn read_config(&self) -> (r: VfsResult<Vec<u8>>)
        requires
            self.wf(),
        ensures
            match r {
                Ok(d) => spec_read_config(self@) == Ok::<Seq<u8>, VfsError>(d@),
                Err(e) => spec_read_config(self@) == Err::<Seq<u8>, VfsError>(e),
            },
    {
        if !self.is_file("/conf.toml") {
            return Err(VfsError::Config);
        }
        match self.open("/conf.toml") {
            Ok(mut f) => {
                let d = f.read_to_end();
                proof {
                    assert(d@ =~= f@.data);
                }
                Ok(d)
            },
            Err(e) => Err(e),
        }
    }

    /// Saves the given configuration bytes to `/conf.toml` in the first
    /// writable store, overwriting any file already there, and verifies
    /// that the file now resolves.
    pub fn write_config(&mut self, data: &[u8]) -> (r: VfsResult<()>)
        requires
            old(self).wf(),
        ensures
            final(self).wf(),
            unchanged_roots(old(self), final(self)),
            final(self)@ == spec_write_config(old(self)@, data@).0,
            match r {
                Ok(()) => spec_write_config(old(self)@, data@).1 == Ok::<(), VfsError>(()),
                Err(e) => spec_write_config(old(self)@, data@).1 == Err::<(), VfsError>(e),
            },
    {
        let mut f = match self.create("/conf.toml") {
            Ok(f) => f,
            Err(e) => {
                return Err(e);
            },
        };
        let _dlen = data.len();
        proof {
            assert(_dlen == data@.len());
        }
        match f.write(data) {
            Ok(_) => {},
            Err(_) => {
                proof {
                    // a freshly created handle is writable and empty, so
                    // the write cannot fail
                    assert(f@.writable);
                    assert(false);
                }
            },
        }
        proof {
            assert(f@.data =~= write_at(Seq::<u8>::empty(), 0, data@));
            assert(f@.data =~= data@);
        }
        let r = self.close(f);
        match r {
            Ok(()) => {},
            Err(e) => {
                return Err(e);
            },
        }
        if self.is_file("/conf.toml") {
            Ok(())
        } else {
            Err(VfsError::Config)
        }
    }

    /// Returns the full path to the resources directory (whether or not
    /// it exists).
    pub fn resources_dir(&self) -> (r: &str)
        ensures
            r@ == self.spec_resources_dir(),
    {
        self.resources_dir.as_str()
    }

    /// Returns the full path to the resources archive (whether or not it
    /// exists).
    pub fn zip_dir(&self) -> (r: &str)
        ensures
            r@ == self.spec_zip_dir(),
    {
        self.zip_dir.as_str()
    }

    /// Returns the full path to the user config directory.
    pub fn user_config_dir(&self) -> (r: &str)
        ensures
            r@ == self.spec_user_config_dir(),
    {
        self.user_config_dir.as_str()
    }

    /// Returns the full path to the user data directory.
    pub fn user_data_dir(&self) -> (r: &str)
        ensures
            r@ == self.spec_user_data_dir(),
    {
        self.user_data_dir.as_str()
    }
}

/// The four remembered root paths are never re-derived.
pub open spec fn unchanged_roots(a: &Filesystem, b: &Filesystem) -> bool {
    &&& a.spec_resources_dir() == b.spec_resources_dir()
    &&& a.spec_zip_dir() == b.spec_zip_dir()
    &&& a.spec_user_config_dir() == b.spec_user_config_dir()
    &&& a.spec_user_data_dir() == b.spec_user_data_dir()
}

/// The diagnostic message for a failed open with options: the attempted
/// path together with the error's name.
pub fn describe_open_failure(path: &str, e: VfsError) -> (r: String)
    ensures
        r@ == "Tried to open "@ + path@ + " but got error: "@ + e.spec_describe(),
{
    let mut s = String::from_str("Tried to open ");
    s.append(path);
    s.append(" but got error: ");
    s.append(e.describe());
    proof {
        assert(s@ =~= "Tried to open "@ + path@ + " but got error: "@ + e.spec_describe());
    }
    s
}

/// A context owning the filesystem state, for the free-function forms of
/// the operations.
pub struct Context {
    /// The filesystem.
    pub fs: Filesystem,
}

/// Opens the given path and returns the resulting `File` in read-only
/// mode.
pub fn open(ctx: &Context, path: &str) -> (r: VfsResult<File>)
    requires
        ctx.fs.wf(),
    ensures
        match r {
            Ok(f) => spec_open(ctx.fs@, path@) == Ok::<FileM, VfsError>(f@),
            Err(e) => spec_open(ctx.fs@, path@) == Err::<FileM, VfsError>(e),
        },
{
    ctx.fs.open(path)
}

/// Opens a file with the given options.
pub fn open_options(ctx: &mut Context, path: &str, options: OpenOptions) -> (r: VfsResult<File>)
    requires
        old(ctx).fs.wf(),
    ensures
        final(ctx).fs.wf(),
        final(ctx).fs@ == spec_oo(old(ctx).fs@, path@, options).0,
        match r {
            Ok(f) => spec_oo(old(ctx).fs@, path@, options).1 == Ok::<FileM, VfsError>(f@),
            Err(e) => spec_oo(old(ctx).fs@, path@, options).1 == Err::<FileM, VfsError>(e),
        },
{
    ctx.fs.open_options(path, options)
}

/// Creates a file in the first writable store and opens it for writing.
pub fn create(ctx: &mut Context, path: &str) -> (r: VfsResult<File>)
    requires
        old(ctx).fs.wf(),
    ensures
        final(ctx).fs.wf(),
        final(ctx).fs@ == spec_oo(old(ctx).fs@, path@, create_opts()).0,
        match r {
            Ok(f) => spec_oo(old(ctx).fs@, path@, create_opts()).1 == Ok::<FileM, VfsError>(f@),
            Err(e) => spec_oo(old(ctx).fs@, path@, create_opts()).1 == Err::<FileM, VfsError>(e),
        },
{
    ctx.fs.create(path)
}

/// Create an empty directory, and any missing parents, in the first
/// writable store.
pub fn create_dir(ctx: &mut Context, path: &str) -> (r: VfsResult<()>)
    requires
        old(ctx).fs.wf(),
    ensures
        final(ctx).fs.wf(),
        match first_idx(Probe::Writable, old(ctx).fs@, path@) {
            None => r == Err::<(), VfsError>(VfsError::PermissionDenied) && final(ctx).fs@ == old(
                ctx,
            ).fs@,
            Some(w) => {
                &&& final(ctx).fs@.len() == old(ctx).fs@.len()
                &&& forall|k: int|
                    0 <= k < old(ctx).fs@.len() && k != w ==> final(ctx).fs@[k] == old(ctx).fs@[k]
                &&& final(ctx).fs@[w].desc == old(ctx).fs@[w].desc
                &&& final(ctx).fs@[w].readonly == old(ctx).fs@[w].readonly
                &&& final(ctx).fs@[w].tree.files == old(ctx).fs@[w].tree.files
                &&& match r {
                    Ok(()) => valid_path(path@) && mk_ok(old(ctx).fs@[w].tree, path@)
                        && final(ctx).fs@[w].tree.dirs == old(ctx).fs@[w].tree.dirs.union(
                        anc_or_self(path@),
                    ),
                    Err(e) => !(valid_path(path@) && mk_ok(old(ctx).fs@[w].tree, path@)) && old(
                        ctx,
                    ).fs@[w].tree.dirs.subset_of(final(ctx).fs@[w].tree.dirs)
                        && final(ctx).fs@[w].tree.dirs.subset_of(
                        old(ctx).fs@[w].tree.dirs.union(anc_or_self(path@)),
                    ) && (if !valid_path(path@) {
                        e == VfsError::NotFound
                    } else {
                        e == VfsError::AlreadyExists
                    }),
                }
            },
        },
{
    ctx.fs.create_dir(path)
}

/// Deletes the given file or empty directory.
pub fn delete(ctx: &mut Context, path: &str) -> (r: VfsResult<()>)
    requires
        old(ctx).fs.wf(),
    ensures
        final(ctx).fs.wf(),
        match first_idx(Probe::WritableEntry, old(ctx).fs@, path@) {
            None => r == Err::<(), VfsError>(VfsError::NotFound) && final(ctx).fs@ == old(ctx).fs@,
            Some(w) => match r {
                Ok(()) => rm_ok(old(ctx).fs@[w].tree, path@) && final(ctx).fs@ == old(
                    ctx,
                ).fs@.update(
                    w,
                    BackendM {
                        tree: TreeM {
                            dirs: old(ctx).fs@[w].tree.dirs.remove(path@),
                            files: old(ctx).fs@[w].tree.files.remove(path@),
                        },
                        ..old(ctx).fs@[w]
                    },
                ),
                Err(e) => !rm_ok(old(ctx).fs@[w].tree, path@) && final(ctx).fs@ == old(ctx).fs@
                    && e == VfsError::Io,
            },
        },
{
    ctx.fs.delete(path)
}

/// Deletes the given directory and everything under it.
pub fn delete_dir(ctx: &mut Context, path: &str) -> (r: VfsResult<()>)
    requires
        old(ctx).fs.wf(),
    ensures
        final(ctx).fs.wf(),
        final(ctx).fs@ == spec_rmrf(old(ctx).fs@, path@).0,
        match r {
            Ok(()) => spec_rmrf(old(ctx).fs@, path@).1 == Ok::<(), VfsError>(()),
            Err(e) => spec_rmrf(old(ctx).fs@, path@).1 == Err::<(), VfsError>(e),
        },
{
    ctx.fs.delete_dir(path)
}

/// Check whether a file or directory exists.
pub fn exists_at(ctx: &Context, path: &str) -> (b: bool)
    requires
        ctx.fs.wf(),
    ensures
        b == spec_exists(ctx.fs@, path@),
{
    ctx.fs.exists_at(path)
}

/// Check whether a path points at a file.
pub fn is_file(ctx: &Context, path: &str) -> (b: bool)
    requires
        ctx.fs.wf(),
    ensures
        b == spec_is_file(ctx.fs@, path@),
{
    ctx.fs.is_file(path)
}

/// Check whether a path points at a directory.
pub fn is_dir(ctx: &Context, path: &str) -> (b: bool)
    requires
        ctx.fs.wf(),
    ensures
        b == spec_is_dir(ctx.fs@, path@),
{
    ctx.fs.is_dir(path)
}

/// Return the full path to the user data directory.
pub fn user_data_dir(ctx: &Context) -> (r: &str)
    ensures
        r@ == ctx.fs.spec_user_data_dir(),
{
    ctx.fs.user_data_dir()
}

/// Return the full path to the user config directory.
pub fn user_config_dir(ctx: &Context) -> (r: &str)
    ensures
        r@ == ctx.fs.spec_user_config_dir(),
{
    ctx.fs.user_config_dir()
}

/// Returns the full path to the resources directory.
pub fn resources_dir(ctx: &Context) -> (r: &str)
    ensures
        r@ == ctx.fs.spec_resources_dir(),
{
    ctx.fs.resources_dir()
}

/// Returns the full path to the resources archive.
pub fn zip_dir(ctx: &Context) -> (r: &str)
    ensures
        r@ == ctx.fs.spec_zip_dir(),
{
    ctx.fs.zip_dir()
}

/// Lists all files and directories in the given directory.
pub fn read_dir(ctx: &Context, path: &str) -> (r: VfsResult<Vec<String>>)
    requires
        ctx.fs.wf(),
    ensures
        match r {
            Ok(v) => (match first_idx(Probe::Dir, ctx.fs@, norm_query(path@)) {
                Some(i) => listing_ok(ctx.fs@[i].tree, norm_query(path@), v@),
                None => false,
            }),
            Err(e) => e == VfsError::NotFound && first_idx(
                Probe::Dir,
                ctx.fs@,
                norm_query(path@),
            ) is None,
        },
{
    ctx.fs.read_dir(path)
}

/// Adds the given real directory as the lowest-priority store.
pub fn mount(ctx: &mut Context, path: &str, readonly: bool)
    requires
        old(ctx).fs.wf(),
    ensures
        final(ctx).fs.wf(),
        final(ctx).fs@ == old(ctx).fs@.push(
            BackendM { desc: path@, readonly, tree: empty_tree() },
        ),
{
    ctx.fs.mount(path, readonly)
}

/// Reads the configuration file `/conf.toml`.
pub fn read_config(ctx: &Context) -> (r: VfsResult<Vec<u8>>)
    requires
        ctx.fs.wf(),
    ensures
        match r {
            Ok(d) => spec_read_config(ctx.fs@) == Ok::<Seq<u8>, VfsError>(d@),
            Err(e) => spec_read_config(ctx.fs@) == Err::<Seq<u8>, VfsError>(e),
        },
{
    ctx.fs.read_config()
}

/// Saves the given configuration bytes to `/conf.toml`.
pub fn write_config(ctx: &mut Context, data: &[u8]) -> (r: VfsResult<()>)
    requires
        old(ctx).fs.wf(),
    ensures
        final(ctx).fs.wf(),
        final(ctx).fs@ == spec_write_config(old(ctx).fs@, data@).0,
        match r {
            Ok(()) => spec_write_config(old(ctx).fs@, data@).1 == Ok::<(), VfsError>(()),
            Err(e) => spec_write_config(old(ctx).fs@, data@).1 == Err::<(), VfsError>(e),
        },
{
    ctx.fs.write_config(data)
}

} // verus!
