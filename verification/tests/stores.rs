//! Tests of the individual stores: the readonly policy and the archive
//! index.

use gvfs::backend::Backend;
use gvfs::types::{OpenOptions, RawEntry, VfsError};

fn entry(name: &str, is_dir: bool, data: &[u8]) -> RawEntry {
    RawEntry { name: name.to_string(), is_dir, data: data.to_vec() }
}

#[test]
fn readonly_store_rejects_every_mutation() {
    let mut b = Backend::new_dir("/assets", true);
    // the path exists in the store, and still every mutation is denied
    b.load("/present.txt", b"x".to_vec()).unwrap();
    assert!(b.exists_at("/present.txt"));

    assert_eq!(b.create("/present.txt").unwrap_err(), VfsError::PermissionDenied);
    assert_eq!(b.create("/absent.txt").unwrap_err(), VfsError::PermissionDenied);
    assert_eq!(b.mkdir("/d").unwrap_err(), VfsError::PermissionDenied);
    assert_eq!(b.rm("/present.txt").unwrap_err(), VfsError::PermissionDenied);
    assert_eq!(b.rmrf("/present.txt").unwrap_err(), VfsError::PermissionDenied);
    let w = OpenOptions::new().read(true).write(true);
    assert_eq!(b.open_options("/present.txt", w).unwrap_err(), VfsError::PermissionDenied);
    let a = OpenOptions::new().append(true);
    assert_eq!(b.open_options("/present.txt", a).unwrap_err(), VfsError::PermissionDenied);
    let c = OpenOptions::new().create(true);
    assert_eq!(b.open_options("/absent.txt", c).unwrap_err(), VfsError::PermissionDenied);
    let t = OpenOptions::new().truncate(true);
    assert_eq!(b.open_options("/present.txt", t).unwrap_err(), VfsError::PermissionDenied);

    // reading is still allowed
    let mut f = b.open("/present.txt").unwrap();
    assert_eq!(f.read_to_end(), b"x".to_vec());
}

#[test]
fn archive_store_is_readonly() {
    let entries = vec![entry("a.txt", false, b"alpha")];
    let mut z = Backend::new_zip("/game/resources.zip", &entries).unwrap();
    assert!(z.readonly());
    assert_eq!(z.create("/b.txt").unwrap_err(), VfsError::PermissionDenied);
    assert_eq!(z.mkdir("/d").unwrap_err(), VfsError::PermissionDenied);
    assert_eq!(z.rm("/a.txt").unwrap_err(), VfsError::PermissionDenied);
    assert_eq!(z.rmrf("/a.txt").unwrap_err(), VfsError::PermissionDenied);
}

#[test]
fn archive_index_normalizes_and_synthesizes_directories() {
    let entries = vec![
        entry("textures/", true, b""),
        entry("textures/tile.png", false, b"t"),
        entry("/sounds/pew.ogg", false, b"p"),
        entry("deep/nested/dir/file.txt", false, b"f"),
    ];
    let z = Backend::new_zip("/game/resources.zip", &entries).unwrap();
    assert!(z.exists_at("/textures"));
    assert!(z.exists_at("/textures/tile.png"));
    assert!(z.exists_at("/sounds"));
    assert!(z.exists_at("/sounds/pew.ogg"));
    // intermediate directories exist even though the archive never
    // listed them
    assert!(z.exists_at("/deep"));
    assert!(z.exists_at("/deep/nested"));
    assert!(z.exists_at("/deep/nested/dir"));
    let m = z.metadata("/deep/nested").unwrap();
    assert!(m.is_dir());
    let m = z.metadata("/textures/tile.png").unwrap();
    assert!(m.is_file());
    assert_eq!(m.len(), 1);

    let root = z.read_dir("/").unwrap();
    assert_eq!(root.len(), 3);
    assert!(root.iter().any(|s| s == "/textures"));
    assert!(root.iter().any(|s| s == "/sounds"));
    assert!(root.iter().any(|s| s == "/deep"));

    let mut f = z.open("/sounds/pew.ogg").unwrap();
    assert_eq!(f.read_to_end(), b"p".to_vec());
}

#[test]
fn archive_rejects_colliding_entries() {
    // a file entry and a directory of the same name cannot both be
    // indexed
    let entries = vec![
        entry("x", false, b"file"),
        entry("x/y.txt", false, b"child"),
    ];
    assert_eq!(Backend::new_zip("/z", &entries).unwrap_err(), VfsError::Io);

    // a malformed name is an indexing error too
    let entries = vec![entry("a//b.txt", false, b"bad")];
    assert_eq!(Backend::new_zip("/z", &entries).unwrap_err(), VfsError::Io);
}

#[test]
fn store_mkdir_is_idempotent_and_recursive() {
    let mut b = Backend::new_dir("/data", false);
    b.mkdir("/a/b/c").unwrap();
    assert!(b.exists_at("/a"));
    assert!(b.exists_at("/a/b"));
    assert!(b.exists_at("/a/b/c"));
    // creating it again succeeds silently
    b.mkdir("/a/b/c").unwrap();
    // a file in the way is a collision
    b.load("/a/b/c/f.txt", b"x".to_vec()).unwrap();
    assert_eq!(b.mkdir("/a/b/c/f.txt").unwrap_err(), VfsError::AlreadyExists);
}

#[test]
fn store_rm_semantics() {
    let mut b = Backend::new_dir("/data", false);
    b.mkdir("/d").unwrap();
    b.load("/d/f.txt", b"x".to_vec()).unwrap();
    // a non-empty directory cannot be removed one level at a time
    assert_eq!(b.rm("/d").unwrap_err(), VfsError::Io);
    b.rm("/d/f.txt").unwrap();
    b.rm("/d").unwrap();
    assert!(!b.exists_at("/d"));
    assert_eq!(b.rm("/d").unwrap_err(), VfsError::NotFound);
}

#[test]
fn error_kinds_have_names() {
    assert_eq!(VfsError::NotFound.describe(), "not found");
    assert_eq!(VfsError::PermissionDenied.describe(), "permission denied");
    assert_eq!(VfsError::AlreadyExists.describe(), "already exists");
    assert_eq!(VfsError::Io.describe(), "i/o failure");
    assert_eq!(VfsError::Config.describe(), "config error");
}
