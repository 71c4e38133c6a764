use std::path::PathBuf;

use hearth::fs::{plain_names, Error, FsPlugin, PathPart};

fn names(items: &[&str]) -> Vec<String> {
    items.iter().map(|name| name.to_string()).collect()
}

#[test]
fn fs_resolves_plain_targets_under_the_root() {
    let root = PathBuf::from("/srv/hearth");
    let plugin = FsPlugin::new(root.clone());
    for (target, expected) in [
        ("a/b.txt", names(&["a", "b.txt"])),
        ("a//b/", names(&["a", "b"])),
        ("a/./b", names(&["a", "b"])),
        ("", names(&[])),
    ] {
        let path = plugin.resolve(target).unwrap();
        assert_eq!(path.root, &root);
        assert_eq!(path.names, expected);
    }
    assert_eq!(plugin.root_path(), &root);
}

#[test]
fn fs_refuses_directory_traversal() {
    let plugin = FsPlugin::new(PathBuf::from("/srv/hearth"));
    for target in ["../etc/passwd", "a/../../b", "a/..", "/etc/passwd", "./a"] {
        assert_eq!(plugin.resolve(target).unwrap_err(), Error::DirectoryTraversal);
    }
}

#[test]
fn fs_plain_names_wants_every_part_normal() {
    let ok = vec![PathPart::Normal("a".to_string()), PathPart::Normal("b".to_string())];
    assert_eq!(plain_names(ok), Ok(vec!["a".to_string(), "b".to_string()]));
    assert_eq!(plain_names(vec![]), Ok(vec![]));
    for bad in [PathPart::Prefix, PathPart::RootDir, PathPart::CurDir, PathPart::ParentDir] {
        let parts = vec![PathPart::Normal("a".to_string()), bad, PathPart::Normal("b".to_string())];
        assert_eq!(plain_names(parts), Err(Error::DirectoryTraversal));
    }
}

#[test]
fn fs_process_metadata() {
    let meta = FsPlugin::get_process_metadata();
    assert_eq!(meta.name, Some("hearth.fs.Filesystem".to_string()));
    assert_eq!(
        meta.description,
        Some("The native filesystem access service. Accepts FsRequest.".to_string())
    );
    assert_eq!(FsPlugin::name(), "hearth.fs.Filesystem");
}

#[test]
fn fs_resolve_parts_puts_the_names_under_the_root() {
    let root = PathBuf::from("/srv/hearth");
    let plugin = FsPlugin::new(root.clone());
    let parts = vec![PathPart::Normal("a".to_string()), PathPart::Normal("b".to_string())];
    let path = plugin.resolve_parts(parts).unwrap();
    assert_eq!(path.root, &root);
    assert_eq!(path.names, names(&["a", "b"]));
    let path = plugin.resolve_parts(vec![]).unwrap();
    assert_eq!(path.root, &root);
    assert!(path.names.is_empty());
    assert_eq!(
        plugin
            .resolve_parts(vec![PathPart::Normal("a".to_string()), PathPart::ParentDir])
            .unwrap_err(),
        Error::DirectoryTraversal
    );
}
