//! Tests of the filesystem facade: resolution, writes, configuration.

use gvfs::filesystem::{self as vfs, Filesystem};
use gvfs::types::{OpenOptions, RawEntry, SeekFrom, VfsError};

/// A filesystem with one writable store, as a headless test bed.
fn dummy_fs_for_tests() -> Filesystem {
    let mut fs = Filesystem::with_platform_dirs("resources", "resources.zip", "/game", None, None)
        .unwrap();
    fs.preload(0, "/tile.png", b"tile-bytes".to_vec()).unwrap();
    fs.preload(0, "/player.png", b"player-bytes".to_vec()).unwrap();
    fs
}

#[test]
fn headless_test_file_exists() {
    let f = dummy_fs_for_tests();

    let tile_file = "/tile.png";
    assert!(f.exists_at(tile_file));
    assert!(f.is_file(tile_file));

    let tile_file = "/oglebog.png";
    assert!(!f.exists_at(tile_file));
    assert!(!f.is_file(tile_file));
    assert!(!f.is_dir(tile_file));
}

#[test]
fn headless_test_read_dir() {
    let f = dummy_fs_for_tests();

    let dir_contents_size = f.read_dir("/").unwrap().len();
    assert!(dir_contents_size > 0);
}

#[test]
fn headless_test_create_delete_file() {
    let mut fs = dummy_fs_for_tests();
    let test_file = "/testfile.txt";
    let bytes = b"test";

    let mut file = fs.create(test_file).unwrap();
    let _ = file.write(bytes).unwrap();
    fs.close(file).unwrap();

    let mut file = fs.open(test_file).unwrap();
    let buffer = file.read_to_end();
    assert_eq!(bytes, buffer.as_slice());

    fs.delete(test_file).unwrap();
    assert!(!fs.exists_at(test_file));
}

#[test]
fn headless_test_file_not_found() {
    let fs = dummy_fs_for_tests();
    match fs.open("testfile.txt") {
        Err(VfsError::NotFound) => (),
        Err(e) => panic!("Invalid error for opening file with relative path: {e:?}"),
        Ok(f) => panic!("Should have gotten an error but instead got {f:?}!"),
    }

    match fs.open("/ooglebooglebarg.txt") {
        Err(VfsError::NotFound) => (),
        Err(e) => panic!("Invalid error for opening nonexistent file: {e:?}"),
        Ok(f) => panic!("Should have gotten an error but instead got {f:?}"),
    }
}

#[test]
fn headless_test_write_config() {
    let mut f = dummy_fs_for_tests();
    let conf = b"[window]\nwidth = 800\n";
    match f.write_config(conf) {
        Ok(_) => (),
        Err(e) => panic!("{e:?}"),
    }
    f.delete("/conf.toml").unwrap();
}

#[test]
fn config_round_trip_and_missing() {
    let mut f = dummy_fs_for_tests();
    let conf = b"fullscreen = false";
    f.write_config(conf).unwrap();
    let back = f.read_config().unwrap();
    assert_eq!(back.as_slice(), conf);
    f.delete("/conf.toml").unwrap();
    match f.read_config() {
        Err(VfsError::Config) => (),
        other => panic!("expected the configuration error, got {other:?}"),
    }
}

#[test]
fn first_match_wins_across_stores() {
    // the same path in two stores resolves to the front one
    let mut fs = Filesystem::with_platform_dirs("resources", "resources.zip", "/game", None, None)
        .unwrap();
    fs.mount("/second", false);
    fs.preload(1, "/shared.txt", b"back".to_vec()).unwrap();
    fs.preload(0, "/shared.txt", b"front".to_vec()).unwrap();
    let mut f = fs.open("/shared.txt").unwrap();
    assert_eq!(f.read_to_end(), b"front".to_vec());
}

#[test]
fn create_lands_in_first_writable_store() {
    // a readonly store in front is skipped by writes
    let mut fs = Filesystem::with_platform_dirs("resources", "resources.zip", "/game", None, None)
        .unwrap();
    fs.mount_front("/packaged", true);
    let mut f = fs.create("/save.dat").unwrap();
    let _ = f.write(b"progress").unwrap();
    fs.close(f).unwrap();
    assert!(fs.exists_at("/save.dat"));
    let mut f = fs.open("/save.dat").unwrap();
    assert_eq!(f.read_to_end(), b"progress".to_vec());
    // it landed in the writable store, so it can be removed again
    fs.delete("/save.dat").unwrap();
    assert!(!fs.exists_at("/save.dat"));
}

#[test]
fn mount_front_takes_priority() {
    let mut fs = Filesystem::with_platform_dirs("resources", "resources.zip", "/game", None, None)
        .unwrap();
    assert!(fs.open("/mod.txt").is_err());
    fs.mount_front("/mods", false);
    fs.preload(0, "/mod.txt", b"override".to_vec()).unwrap();
    let mut f = fs.open("/mod.txt").unwrap();
    assert_eq!(f.read_to_end(), b"override".to_vec());
}

#[test]
fn rmrf_removes_every_descendant() {
    let mut fs = dummy_fs_for_tests();
    fs.create_dir("/level/sub").unwrap();
    let f = fs.create("/level/a.txt").unwrap();
    fs.close(f).unwrap();
    let f = fs.create("/level/sub/b.txt").unwrap();
    fs.close(f).unwrap();
    assert!(fs.is_dir("/level"));
    assert!(fs.exists_at("/level/sub/b.txt"));
    fs.delete_dir("/level").unwrap();
    assert!(!fs.exists_at("/level"));
    assert!(!fs.exists_at("/level/sub"));
    assert!(!fs.exists_at("/level/a.txt"));
    assert!(!fs.exists_at("/level/sub/b.txt"));
}

#[test]
fn read_dir_root_lists_exactly_the_children() {
    let mut fs = Filesystem::with_platform_dirs("resources", "resources.zip", "/game", None, None)
        .unwrap();
    fs.preload(0, "/a.png", b"a".to_vec()).unwrap();
    fs.preload(0, "/b.png", b"b".to_vec()).unwrap();
    let listing = fs.read_dir("/").unwrap();
    assert_eq!(listing.len(), 2);
    assert!(listing.iter().any(|s| s == "/a.png"));
    assert!(listing.iter().any(|s| s == "/b.png"));
    // the empty path denotes the root as well
    let listing2 = fs.read_dir("").unwrap();
    assert_eq!(listing2.len(), 2);
}

#[test]
fn open_directory_is_not_found() {
    let mut fs = dummy_fs_for_tests();
    fs.create_dir("/somedir").unwrap();
    assert!(fs.is_dir("/somedir"));
    match fs.open("/somedir") {
        Err(VfsError::NotFound) => (),
        other => panic!("opening a directory should be NotFound, got {other:?}"),
    }
}

#[test]
fn metadata_reports_kind_and_size() {
    let mut fs = dummy_fs_for_tests();
    fs.create_dir("/d").unwrap();
    let m = fs.metadata("/tile.png").unwrap();
    assert!(m.is_file());
    assert!(!m.is_dir());
    assert_eq!(m.len(), b"tile-bytes".len());
    let m = fs.metadata("/d").unwrap();
    assert!(m.is_dir());
    assert_eq!(m.len(), 0);
    assert!(fs.metadata("/gone").is_err());
}

#[test]
fn create_dir_over_file_already_exists() {
    let mut fs = dummy_fs_for_tests();
    match fs.create_dir("/tile.png/sub") {
        Err(VfsError::AlreadyExists) => (),
        other => panic!("expected AlreadyExists, got {other:?}"),
    }
}

#[test]
fn delete_nonempty_directory_fails() {
    let mut fs = dummy_fs_for_tests();
    fs.create_dir("/full").unwrap();
    let f = fs.create("/full/x.txt").unwrap();
    fs.close(f).unwrap();
    match fs.delete("/full") {
        Err(VfsError::Io) => (),
        other => panic!("expected an i/o failure, got {other:?}"),
    }
    fs.delete("/full/x.txt").unwrap();
    fs.delete("/full").unwrap();
    assert!(!fs.exists_at("/full"));
}

#[test]
fn open_options_append_and_truncate() {
    let mut fs = dummy_fs_for_tests();
    let mut f = fs.create("/log.txt").unwrap();
    let _ = f.write(b"one").unwrap();
    fs.close(f).unwrap();

    let opts = OpenOptions::new().write(true).append(true);
    let mut f = fs.open_options("/log.txt", opts).unwrap();
    let _ = f.write(b"+two").unwrap();
    fs.close(f).unwrap();
    let mut f = fs.open("/log.txt").unwrap();
    assert_eq!(f.read_to_end(), b"one+two".to_vec());

    let opts = OpenOptions::new().write(true).truncate(true);
    let mut f = fs.open_options("/log.txt", opts).unwrap();
    let _ = f.write(b"fresh").unwrap();
    fs.close(f).unwrap();
    let mut f = fs.open("/log.txt").unwrap();
    assert_eq!(f.read_to_end(), b"fresh".to_vec());
}

#[test]
fn open_options_meaningless_combination_rejected() {
    let mut fs = dummy_fs_for_tests();
    let opts = OpenOptions::new();
    match fs.open_options("/tile.png", opts) {
        Err(VfsError::Io) => (),
        other => panic!("expected rejection, got {other:?}"),
    }
}

#[test]
fn handle_seek_and_read() {
    let mut fs = dummy_fs_for_tests();
    let mut f = fs.create("/seek.bin").unwrap();
    let _ = f.write(b"0123456789").unwrap();
    fs.close(f).unwrap();

    let mut f = fs.open("/seek.bin").unwrap();
    assert_eq!(f.seek(SeekFrom::Start(4)).unwrap(), 4);
    assert_eq!(f.read(3), b"456".to_vec());
    assert_eq!(f.seek(SeekFrom::End(-2)).unwrap(), 8);
    assert_eq!(f.read_to_end(), b"89".to_vec());
    assert_eq!(f.seek(SeekFrom::Current(-4)).unwrap(), 6);
    assert_eq!(f.read(100), b"6789".to_vec());
    match f.seek(SeekFrom::Current(-100)) {
        Err(VfsError::Io) => (),
        other => panic!("seeking before the start should fail, got {other:?}"),
    }
}

#[test]
fn handle_write_zero_fills_gap() {
    let mut fs = dummy_fs_for_tests();
    let mut f = fs.create("/gap.bin").unwrap();
    let _ = f.write(b"ab").unwrap();
    f.seek(SeekFrom::Start(4)).unwrap();
    let _ = f.write(b"cd").unwrap();
    fs.close(f).unwrap();
    let mut f = fs.open("/gap.bin").unwrap();
    assert_eq!(f.read_to_end(), vec![b'a', b'b', 0, 0, b'c', b'd']);
}

#[test]
fn write_through_readonly_handle_denied() {
    let mut fs = dummy_fs_for_tests();
    let mut f = fs.open("/tile.png").unwrap();
    match f.write(b"nope") {
        Err(VfsError::PermissionDenied) => (),
        other => panic!("expected PermissionDenied, got {other:?}"),
    }
}

#[test]
fn remembered_roots_and_archive_mount() {
    let mut fs = Filesystem::with_platform_dirs(
        "resources",
        "resources.zip",
        "/opt/game",
        None,
        Some(("/home/u/.local/share/game".to_string(), "/home/u/.config/game".to_string())),
    )
    .unwrap();
    assert_eq!(fs.resources_dir(), "/opt/game/resources");
    assert_eq!(fs.zip_dir(), "/opt/game/resources.zip");
    assert_eq!(fs.user_data_dir(), "/home/u/.local/share/game");
    assert_eq!(fs.user_config_dir(), "/home/u/.config/game");

    let entries = vec![
        RawEntry { name: "pack/one.txt".to_string(), is_dir: false, data: b"packed".to_vec() },
    ];
    fs.add_zip_file(&entries).unwrap();
    let mut f = fs.open("/pack/one.txt").unwrap();
    assert_eq!(f.read_to_end(), b"packed".to_vec());

    let dump = fs.write_to_string();
    assert!(dump.contains("/opt/game/resources"));
}

#[test]
fn platform_construction_smoke() {
    // the platform directories come from the environment; whatever it
    // reports, construction succeeds without an archive
    let fs = Filesystem::new("test-app", "test-author", "resources", "resources.zip", "/srv", None)
        .unwrap();
    assert_eq!(fs.resources_dir(), "/srv/resources");
    assert_eq!(fs.zip_dir(), "/srv/resources.zip");
}

#[test]
fn free_functions_delegate() {
    let mut ctx = gvfs::filesystem::Context { fs: dummy_fs_for_tests() };
    assert!(vfs::exists_at(&ctx, "/tile.png"));
    assert!(vfs::is_file(&ctx, "/tile.png"));
    assert!(!vfs::is_dir(&ctx, "/tile.png"));
    let mut f = vfs::open(&ctx, "/tile.png").unwrap();
    assert_eq!(f.read_to_end(), b"tile-bytes".to_vec());
    let f = vfs::create(&mut ctx, "/via-free.txt").unwrap();
    ctx.fs.close(f).unwrap();
    assert!(vfs::exists_at(&ctx, "/via-free.txt"));
    vfs::delete(&mut ctx, "/via-free.txt").unwrap();
    vfs::create_dir(&mut ctx, "/free-dir").unwrap();
    vfs::delete_dir(&mut ctx, "/free-dir").unwrap();
    assert!(vfs::read_dir(&ctx, "/").unwrap().len() > 0);
    vfs::mount(&mut ctx, "/elsewhere", true);
    assert_eq!(vfs::resources_dir(&ctx), "/game/resources");
    assert_eq!(vfs::zip_dir(&ctx), "/game/resources.zip");
    assert_eq!(vfs::user_data_dir(&ctx), "");
    assert_eq!(vfs::user_config_dir(&ctx), "");
    vfs::write_config(&mut ctx, b"x = 1").unwrap();
    assert_eq!(vfs::read_config(&ctx).unwrap(), b"x = 1".to_vec());
}

#[test]
fn path_in_exactly_one_store_resolves_there() {
    // the store that holds the path answers, wherever it sits, and
    // other stores' contents at other paths do not interfere
    let mut fs = Filesystem::with_platform_dirs("resources", "resources.zip", "/game", None, None)
        .unwrap();
    fs.mount("/extra", false);
    fs.preload(0, "/front-only.txt", b"front".to_vec()).unwrap();
    fs.preload(1, "/back-only.txt", b"back".to_vec()).unwrap();
    assert!(fs.exists_at("/back-only.txt"));
    let mut f = fs.open("/back-only.txt").unwrap();
    assert_eq!(f.read_to_end(), b"back".to_vec());
    assert!(fs.exists_at("/front-only.txt"));
    let mut f = fs.open("/front-only.txt").unwrap();
    assert_eq!(f.read_to_end(), b"front".to_vec());
}

#[test]
fn corrupt_archive_fails_construction() {
    let entries = vec![
        RawEntry { name: "a".to_string(), is_dir: false, data: b"file".to_vec() },
        RawEntry { name: "a/b.txt".to_string(), is_dir: false, data: b"child".to_vec() },
    ];
    match Filesystem::with_platform_dirs("resources", "resources.zip", "/game", Some(&entries), None)
    {
        Err(VfsError::Io) => (),
        other => panic!("expected an i/o failure, got {other:?}"),
    }
}

#[test]
fn open_failure_message_names_the_path() {
    let mut fs = dummy_fs_for_tests();
    let e = fs
        .open_options("/missing.txt", OpenOptions::new().read(true))
        .unwrap_err();
    let msg = vfs::describe_open_failure("/missing.txt", e);
    assert_eq!(msg, "Tried to open /missing.txt but got error: not found");
}

#[test]
fn dump_names_each_store_and_its_entries() {
    let mut fs = Filesystem::with_platform_dirs("resources", "resources.zip", "/game", None, None)
        .unwrap();
    fs.preload(0, "/a.png", b"a".to_vec()).unwrap();
    let dump = fs.write_to_string();
    assert_eq!(dump, "Source /game/resources  /a.png\n");

    fs.mount("/second", true);
    let dump = fs.write_to_string();
    assert_eq!(dump, "Source /game/resources  /a.png\nSource /second\n");
}
