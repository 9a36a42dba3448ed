use instant_netboot::fs::{File, FileError, FileType, Metadata};
use instant_netboot::tar::read_only::{make_files_1, make_root, ReadOnlyFilesystem, MIDNIGHT};

fn regular(mode: u32, mtime: u64) -> Metadata {
    Metadata {
        file_type: FileType::Regular,
        mode,
        uid: 0,
        gid: 0,
        mtime,
    }
}

#[test]
fn the_root_is_a_directory() {
    let root = make_root();
    assert_eq!(root.attributes.file_type, FileType::Directory);
    assert_eq!(root.path, "/");
    assert_eq!(root.parent, None);
}

#[test]
fn a_fresh_index_holds_only_the_root() {
    let filesystem = ReadOnlyFilesystem::new();
    assert_eq!(filesystem.len(), 1);
    let root_id = filesystem.root_id();
    let attrs = filesystem.getattr(&root_id).unwrap();
    assert_eq!(attrs.file_type, FileType::Directory);
}

#[test]
fn root_listing_matches_the_reference_archive() {
    let mut filesystem = ReadOnlyFilesystem::new();
    filesystem
        .add_entry("foo.txt".to_string(), regular(0o644, MIDNIGHT), None)
        .unwrap();
    let root_id = filesystem.root_id();
    let expected = make_files_1(root_id);
    let contents = filesystem.readdir(&root_id);
    assert_eq!(expected, contents);
}

#[test]
fn entries_nest_under_their_parent_directories() {
    let mut filesystem = ReadOnlyFilesystem::new();
    let usr = filesystem
        .add_entry(
            "usr".to_string(),
            Metadata {
                file_type: FileType::Directory,
                mode: 0o755,
                uid: 0,
                gid: 0,
                mtime: MIDNIGHT,
            },
            None,
        )
        .unwrap();
    let bin = filesystem
        .add_entry(
            "usr/bin".to_string(),
            Metadata {
                file_type: FileType::Directory,
                mode: 0o755,
                uid: 0,
                gid: 0,
                mtime: MIDNIGHT,
            },
            None,
        )
        .unwrap();
    let sh = filesystem
        .add_entry("usr/bin/sh".to_string(), regular(0o755, MIDNIGHT), None)
        .unwrap();
    let children = filesystem.readdir(&usr);
    assert_eq!(children.len(), 1);
    assert_eq!(children[0].path, "usr/bin");
    assert_eq!(children[0].parent, Some(usr));
    let children = filesystem.readdir(&bin);
    assert_eq!(children.len(), 1);
    assert_eq!(children[0].path, "usr/bin/sh");
    assert_eq!(filesystem.readdir(&sh), Vec::<File>::new());
}

#[test]
fn an_entry_without_an_indexed_parent_is_refused() {
    let mut filesystem = ReadOnlyFilesystem::new();
    let result = filesystem.add_entry("missing/dir/file".to_string(), regular(0o644, 0), None);
    assert_eq!(result, Err(FileError::NotFound));
    assert_eq!(filesystem.len(), 1);
}

#[test]
fn links_carry_their_target() {
    let mut filesystem = ReadOnlyFilesystem::new();
    let id = filesystem
        .add_entry(
            "bin".to_string(),
            Metadata {
                file_type: FileType::Link,
                mode: 0o777,
                uid: 0,
                gid: 0,
                mtime: MIDNIGHT,
            },
            Some("usr/bin".to_string()),
        )
        .unwrap();
    assert_eq!(filesystem.readlink(&id).unwrap(), Some(&"usr/bin".to_string()));
    let root_id = filesystem.root_id();
    assert_eq!(filesystem.readlink(&root_id).unwrap(), None);
}

#[test]
fn unknown_ids_are_not_found() {
    let filesystem = ReadOnlyFilesystem::new();
    assert_eq!(filesystem.getattr(&7).unwrap_err(), FileError::NotFound);
    assert_eq!(filesystem.path_of(&0).unwrap_err(), FileError::NotFound);
    assert_eq!(filesystem.readlink(&2).unwrap_err(), FileError::NotFound);
}

#[test]
fn paths_are_looked_up_by_id() {
    let mut filesystem = ReadOnlyFilesystem::new();
    let id = filesystem
        .add_entry("foo.txt".to_string(), regular(0o644, MIDNIGHT), None)
        .unwrap();
    assert_eq!(filesystem.path_of(&id).unwrap(), "foo.txt");
}
