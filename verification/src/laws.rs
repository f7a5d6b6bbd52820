//! The resolution laws of the overlay, proved once over its
//! mathematical model: what the contracts of the operations promise when
//! composed.

use vstd::prelude::*;
use crate::backend::{create_opts, oo_err, oo_handle, oo_ok, oo_tree, BackendM};
use crate::file::{write_at, FileM};
use crate::filesystem::{conf_path, spec_is_file, spec_read_config, spec_write_config};
use crate::overlay::{
    dir_at, entry_at, file_at, first_idx, lemma_first_idx, lemma_first_idx_is, spec_exists,
    spec_metadata, spec_oo, spec_open, spec_rmrf, spec_write_back, Probe,
};
use crate::tree::TreeM;
use crate::types::{Metadata, OpenOptions, VfsError};
use crate::vpath::{
    dir_prefix, doomed_by, is_root, lemma_last_slash, parent_of, root_path, under, valid_path,
};

verus! {

/// A path held as a file by exactly one store is seen by `exists`, and
/// `open` yields that store's contents, whatever the other stores hold
/// at other paths.
pub proof fn lemma_single_store_resolution(ov: Seq<BackendM>, p: Seq<char>, i: int)
    requires
        0 <= i < ov.len(),
        file_at(ov[i], p),
        forall|k: int| 0 <= k < ov.len() && k != i ==> !entry_at(#[trigger] ov[k], p),
    ensures
        spec_exists(ov, p),
        spec_open(ov, p) == Ok::<FileM, VfsError>(
            FileM { path: p, data: ov[i].tree.files[p], pos: 0, writable: false },
        ),
{
    assert(entry_at(ov[i], p));
    lemma_first_idx_is(Probe::File, ov, p, i);
}

/// First match wins: when a path lives as a file at positions `i` and
/// `j` with `i` in front, `open` returns the contents at `i`.
pub proof fn lemma_first_match_wins(ov: Seq<BackendM>, p: Seq<char>, i: int, j: int)
    requires
        0 <= i < j < ov.len(),
        file_at(ov[i], p),
        file_at(ov[j], p),
        forall|k: int| 0 <= k < i ==> !file_at(#[trigger] ov[k], p),
    ensures
        spec_open(ov, p) == Ok::<FileM, VfsError>(
            FileM { path: p, data: ov[i].tree.files[p], pos: 0, writable: false },
        ),
{
    lemma_first_idx_is(Probe::File, ov, p, i);
}

/// Creating a path present in no store lands it in the first writable
/// store, and afterwards both `exists` and `open` resolve it from that
/// same store.
pub proof fn lemma_create_lands_first_writable(ov: Seq<BackendM>, p: Seq<char>, w: int)
    requires
        forall|k: int| 0 <= k < ov.len() ==> !entry_at(#[trigger] ov[k], p),
        first_idx(Probe::Writable, ov, p) == Some(w),
        valid_path(p),
        !is_root(p),
        ov[w].tree.dirs.contains(parent_of(p)),
    ensures
        spec_oo(ov, p, create_opts()).1 == Ok::<FileM, VfsError>(
            FileM { path: p, data: Seq::<u8>::empty(), pos: 0, writable: true },
        ),
        spec_oo(ov, p, create_opts()).0 == ov.update(
            w,
            BackendM { tree: oo_tree(ov[w].tree, p, create_opts()), ..ov[w] },
        ),
        spec_exists(spec_oo(ov, p, create_opts()).0, p),
        first_idx(Probe::File, spec_oo(ov, p, create_opts()).0, p) == Some(w),
        spec_open(spec_oo(ov, p, create_opts()).0, p) == Ok::<FileM, VfsError>(
            FileM { path: p, data: Seq::<u8>::empty(), pos: 0, writable: false },
        ),
{
    lemma_first_idx(Probe::Writable, ov, p);
    assert(!entry_at(ov[w], p));
    assert(oo_ok(ov[w].tree, false, p, create_opts()));
    let ov2 = spec_oo(ov, p, create_opts()).0;
    assert(oo_handle(ov[w].tree, p, create_opts()) == (FileM {
        path: p,
        data: Seq::<u8>::empty(),
        pos: 0,
        writable: true,
    }));
    assert(file_at(ov2[w], p));
    assert forall|k: int| 0 <= k < w implies !file_at(#[trigger] ov2[k], p) by {
        assert(ov2[k] == ov[k]);
    }
    lemma_first_idx_is(Probe::File, ov2, p, w);
    assert(entry_at(ov2[w], p));
}

/// Round trip: creating a path, writing bytes through the fresh handle
/// and committing it, then opening the path, yields exactly the bytes
/// written.
pub proof fn lemma_round_trip(ov: Seq<BackendM>, p: Seq<char>, w: int, bytes: Seq<u8>)
    requires
        forall|k: int| 0 <= k < ov.len() ==> !entry_at(#[trigger] ov[k], p),
        first_idx(Probe::Writable, ov, p) == Some(w),
        valid_path(p),
        !is_root(p),
        ov[w].tree.dirs.contains(parent_of(p)),
    ensures
        // a fresh handle holds exactly the written bytes
        write_at(Seq::<u8>::empty(), 0, bytes) == bytes,
        // committing them succeeds, and reading the path back yields them
        spec_write_back(spec_oo(ov, p, create_opts()).0, p, bytes).1 == Ok::<(), VfsError>(()),
        spec_open(spec_write_back(spec_oo(ov, p, create_opts()).0, p, bytes).0, p) == Ok::<
            FileM,
            VfsError,
        >(FileM { path: p, data: bytes, pos: 0, writable: false }),
{
    assert(write_at(Seq::<u8>::empty(), 0, bytes) =~= bytes);
    lemma_create_lands_first_writable(ov, p, w);
    lemma_first_idx(Probe::Writable, ov, p);
    let ov2 = spec_oo(ov, p, create_opts()).0;
    assert forall|k: int| 0 <= k < w implies !probe_writable_file(#[trigger] ov2[k], p) by {
        assert(ov2[k] == ov[k]);
        assert(ov[k].readonly);
    }
    assert(!ov2[w].readonly && file_at(ov2[w], p));
    lemma_first_idx_is(Probe::WritableFile, ov2, p, w);
    let ov3 = spec_write_back(ov2, p, bytes).0;
    assert(file_at(ov3[w], p));
    assert(ov3[w].tree.files[p] == bytes);
    assert forall|k: int| 0 <= k < w implies !file_at(#[trigger] ov3[k], p) by {
        assert(ov3[k] == ov[k]);
    }
    lemma_first_idx_is(Probe::File, ov3, p, w);
}

/// How `lemma_round_trip` phrases writability, spelled out.
pub open spec fn probe_writable_file(b: BackendM, p: Seq<char>) -> bool {
    !b.readonly && file_at(b, p)
}

/// A readonly store rejects every mutating open, for every path and
/// every option set implying mutation, with the permission error —
/// whether or not the path exists.
pub proof fn lemma_readonly_rejects(t: TreeM, p: Seq<char>, o: OpenOptions)
    requires
        o.spec_wants_write(),
    ensures
        !oo_ok(t, true, p, o),
        oo_err(t, true, p, o) == VfsError::PermissionDenied,
{
}

/// Removing a tree removes the directory and every descendant: after
/// `rmrf` of `p` hits the store at `w`, no path at or below `p` exists
/// anywhere, provided no other store held it.
pub proof fn lemma_rmrf_removes(ov: Seq<BackendM>, p: Seq<char>, w: int, q: Seq<char>)
    requires
        first_idx(Probe::WritableEntry, ov, p) == Some(w),
        !is_root(p),
        q == p || under(q, p),
        forall|k: int| 0 <= k < ov.len() && k != w ==> !entry_at(#[trigger] ov[k], q),
    ensures
        spec_rmrf(ov, p).1 == Ok::<(), VfsError>(()),
        !spec_exists(spec_rmrf(ov, p).0, q),
{
    lemma_first_idx(Probe::WritableEntry, ov, p);
    let ov2 = spec_rmrf(ov, p).0;
    assert(!is_root(q)) by {
        if under(q, p) {
            assert(dir_prefix(p).len() >= 1);
        }
    }
    assert(q != root_path()) by {
        if q == root_path() {
            assert(is_root(q));
        }
    }
    assert(doomed_by(p).contains(q));
    assert(!entry_at(ov2[w], q));
    assert forall|k: int| 0 <= k < ov2.len() implies !entry_at(#[trigger] ov2[k], q) by {
        if k != w {
            assert(ov2[k] == ov[k]);
        }
    }
    if spec_exists(ov2, q) {
        let k = choose|k: int| 0 <= k < ov2.len() && entry_at(#[trigger] ov2[k], q);
        assert(!entry_at(ov2[k], q));
    }
}

/// The configuration path is well formed and sits directly under the
/// root.
pub proof fn lemma_conf_path_props()
    ensures
        valid_path(conf_path()),
        !is_root(conf_path()),
        parent_of(conf_path()) == root_path(),
{
    reveal_strlit("/conf.toml");
    let p = conf_path();
    assert(p.len() == 10);
    assert(p[0] == '/');
    assert forall|i: int| 0 < i < p.len() implies #[trigger] p[i] != '/' by {
        if i == 1 {
            assert(p[1] == 'c');
        } else if i == 2 {
            assert(p[2] == 'o');
        } else if i == 3 {
            assert(p[3] == 'n');
        } else if i == 4 {
            assert(p[4] == 'f');
        } else if i == 5 {
            assert(p[5] == '.');
        } else if i == 6 {
            assert(p[6] == 't');
        } else if i == 7 {
            assert(p[7] == 'o');
        } else if i == 8 {
            assert(p[8] == 'm');
        } else {
            assert(p[9] == 'l');
        }
    }
    assert(valid_path(p));
    lemma_last_slash(p);
    let ls = crate::vpath::last_slash(p);
    assert(ls == 0) by {
        if ls > 0 {
            assert(p[ls] != '/');
        }
    }
}

/// Configuration round trip: writing bytes to the well-known path and
/// reading them back yields the same bytes; removing the file afterwards
/// makes the read fail with the configuration error.  The premises say
/// where the write lands: the first writable store, whose root directory
/// always exists, with no other store shadowing the path.
pub proof fn lemma_config_round_trip(ov: Seq<BackendM>, d: Seq<u8>, w: int)
    requires
        first_idx(Probe::Writable, ov, conf_path()) == Some(w),
        ov[w].tree.dirs.contains(root_path()),
        !ov[w].tree.dirs.contains(conf_path()),
        forall|k: int| 0 <= k < ov.len() && k != w ==> !entry_at(#[trigger] ov[k], conf_path()),
    ensures
        spec_write_config(ov, d).1 == Ok::<(), VfsError>(()),
        spec_read_config(spec_write_config(ov, d).0) == Ok::<Seq<u8>, VfsError>(d),
        // removing the file afterwards: the removal hits the same store,
        // and the read then reports the configuration error
        first_idx(
            Probe::WritableEntry,
            spec_write_config(ov, d).0,
            conf_path(),
        ) == Some(w),
        spec_read_config(
            spec_write_config(ov, d).0.update(
                w,
                BackendM {
                    tree: TreeM {
                        dirs: spec_write_config(ov, d).0[w].tree.dirs.remove(conf_path()),
                        files: spec_write_config(ov, d).0[w].tree.files.remove(conf_path()),
                    },
                    ..spec_write_config(ov, d).0[w]
                },
            ),
        ) == Err::<Seq<u8>, VfsError>(VfsError::Config),
{
    lemma_conf_path_props();
    lemma_first_idx(Probe::Writable, ov, conf_path());
    let p = conf_path();
    assert(oo_ok(ov[w].tree, false, p, create_opts()));
    let ov2 = spec_oo(ov, p, create_opts()).0;
    assert(file_at(ov2[w], p));
    assert(ov2[w].tree.dirs == ov[w].tree.dirs);
    assert forall|k: int| 0 <= k < ov2.len() && k != w implies ov2[k] == ov[k] by {}
    // the commit lands at the same store
    assert forall|k: int| 0 <= k < w implies !probe_writable_file(#[trigger] ov2[k], p) by {
        assert(ov2[k] == ov[k]);
        assert(ov[k].readonly);
    }
    lemma_first_idx_is(Probe::WritableFile, ov2, p, w);
    let ov3 = spec_write_back(ov2, p, d).0;
    assert(ov3 == spec_write_config(ov, d).0);
    assert(file_at(ov3[w], p) && ov3[w].tree.files[p] == d);
    assert(ov3[w].tree.dirs == ov[w].tree.dirs);
    assert forall|k: int| 0 <= k < ov3.len() && k != w implies ov3[k] == ov[k] by {}
    // the verification step sees the file
    assert forall|k: int| 0 <= k < w implies !entry_at(#[trigger] ov3[k], p) by {
        assert(ov3[k] == ov[k]);
    }
    lemma_first_idx_is(Probe::Entry, ov3, p, w);
    assert(spec_is_file(ov3, p));
    assert(spec_write_config(ov, d).1 == Ok::<(), VfsError>(()));
    // reading it back
    lemma_first_idx_is(Probe::File, ov3, p, w);
    assert(spec_read_config(ov3) == Ok::<Seq<u8>, VfsError>(d));
    // the removal routes to the same store
    assert(!ov3[w].readonly && entry_at(ov3[w], p));
    assert forall|k: int| 0 <= k < w implies !(!(#[trigger] ov3[k]).readonly && entry_at(
        ov3[k],
        p,
    )) by {
        assert(ov3[k] == ov[k]);
        assert(ov[k].readonly);
    }
    lemma_first_idx_is(Probe::WritableEntry, ov3, p, w);
    // after the removal nothing holds the path, so reading reports the
    // configuration error
    let ov4 = ov3.update(
        w,
        BackendM {
            tree: TreeM {
                dirs: ov3[w].tree.dirs.remove(p),
                files: ov3[w].tree.files.remove(p),
            },
            ..ov3[w]
        },
    );
    assert(!entry_at(ov4[w], p));
    assert forall|k: int| 0 <= k < ov4.len() implies !entry_at(#[trigger] ov4[k], p) by {
        if k != w {
            assert(ov4[k] == ov[k]);
        }
    }
    lemma_no_entry_no_file(ov4, p);
    assert(!spec_is_file(ov4, p));
}

/// A path no store holds resolves to nothing.
pub proof fn lemma_no_entry_no_file(ov: Seq<BackendM>, p: Seq<char>)
    requires
        forall|k: int| 0 <= k < ov.len() ==> !entry_at(#[trigger] ov[k], p),
    ensures
        spec_metadata(ov, p) == Err::<Metadata, VfsError>(VfsError::NotFound),
        spec_open(ov, p) == Err::<FileM, VfsError>(VfsError::NotFound),
        !spec_exists(ov, p),
{
    lemma_first_idx(Probe::Entry, ov, p);
    lemma_first_idx(Probe::File, ov, p);
    match first_idx(Probe::Entry, ov, p) {
        Some(i) => {
            assert(!entry_at(ov[i], p));
        },
        None => {},
    }
    match first_idx(Probe::File, ov, p) {
        Some(i) => {
            assert(!entry_at(ov[i], p));
        },
        None => {},
    }
    if spec_exists(ov, p) {
        let k = choose|k: int| 0 <= k < ov.len() && entry_at(#[trigger] ov[k], p);
        assert(!entry_at(ov[k], p));
    }
}

/// A store mounted at the front wins resolution at once: a path it
/// holds as a file, previously unresolved or resolved elsewhere, now
/// exists and opens to the new store's contents.
pub proof fn lemma_mount_front_wins(ov: Seq<BackendM>, b: BackendM, p: Seq<char>)
    requires
        file_at(b, p),
    ensures
        spec_exists(seq![b] + ov, p),
        spec_open(seq![b] + ov, p) == Ok::<FileM, VfsError>(
            FileM { path: p, data: b.tree.files[p], pos: 0, writable: false },
        ),
{
    let ov2 = seq![b] + ov;
    assert(ov2[0] == b);
    lemma_first_idx_is(Probe::File, ov2, p, 0);
    assert(entry_at(ov2[0], p));
}

} // verus!
