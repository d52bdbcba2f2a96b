use legit::path::FilePath;
use legit::tree::FileTree;
use legit::Error;

#[test]
fn paths_join_and_ascend() {
    let path = FilePath::new("/").join("a").join("b");
    assert_eq!(path.depth(), 2);
    assert_eq!(path.root, "/");
    assert_eq!(path.segments, vec!["a".to_string(), "b".to_string()]);
    let parent = path.parent().unwrap();
    assert!(parent.same(&FilePath::new("/").join("a")));
    assert!(parent.parent().unwrap().same(&FilePath::new("/")));
    assert!(FilePath::new("/").parent().is_none());
    assert!(FilePath::new("").parent().is_none());
    assert!(!path.same(&FilePath::new("").join("a").join("b")));
    assert!(!path.same(&parent));
    assert!(path.ancestor(1).same(&parent));
    assert!(path.clone().same(&path));
}

#[test]
fn create_dir_all_makes_every_ancestor() {
    let mut tree = FileTree::new();
    let path = FilePath::new("/").join("a").join("b");
    assert!(!tree.contains(&path));
    tree.create_dir_all(&path).unwrap();
    assert!(tree.is_dir(&path));
    assert!(tree.is_dir(&FilePath::new("/").join("a")));
    assert!(tree.is_dir(&FilePath::new("/")));
    assert_eq!(tree.paths().len(), 3);
    tree.create_dir_all(&path).unwrap();
    assert_eq!(tree.paths().len(), 3);
}

#[test]
fn create_new_is_exclusive() {
    let mut tree = FileTree::new();
    let dir = FilePath::new("/").join("a");
    let file = dir.join("f");
    assert_eq!(tree.create_new(&file, b"x".to_vec()).unwrap_err(), Error::IOError);
    tree.create_dir_all(&dir).unwrap();
    tree.create_new(&file, b"x".to_vec()).unwrap();
    assert_eq!(tree.read(&file).unwrap().as_slice(), b"x");
    assert!(!tree.is_dir(&file));
    assert_eq!(tree.create_new(&file, b"y".to_vec()).unwrap_err(), Error::AlreadyExists);
    assert_eq!(tree.read(&file).unwrap().as_slice(), b"x");
    assert_eq!(tree.create_new(&dir, b"y".to_vec()).unwrap_err(), Error::AlreadyExists);
    assert_eq!(tree.create_new(&FilePath::new("/"), Vec::new()).unwrap_err(), Error::AlreadyExists);
    assert_eq!(tree.create_new(&FilePath::new("c:"), Vec::new()).unwrap_err(), Error::IOError);
    assert!(tree.read(&dir).is_none());
}

#[test]
fn no_directory_below_a_file() {
    let mut tree = FileTree::new();
    let dir = FilePath::new("/").join("a");
    let file = dir.join("f");
    tree.create_dir_all(&dir).unwrap();
    tree.create_new(&file, Vec::new()).unwrap();
    assert_eq!(tree.create_dir_all(&file.join("d")).unwrap_err(), Error::IOError);
    assert_eq!(tree.create_dir_all(&file).unwrap_err(), Error::IOError);
    assert_eq!(tree.create_new(&file.join("g"), Vec::new()).unwrap_err(), Error::IOError);
    assert_eq!(tree.paths().len(), 3);
}

#[test]
fn every_error_has_a_message() {
    let all = [
        Error::InvalidHash,
        Error::NotFound,
        Error::AlreadyExists,
        Error::MalformedHeader,
        Error::InvalidKind,
        Error::InvalidSize,
        Error::SizeMismatch,
        Error::HashMismatch,
        Error::DecompressionError,
        Error::NoRepository,
        Error::AlreadyInitialized,
        Error::UnsupportedFormatVersion,
        Error::ConfigError,
        Error::IOError,
    ];
    for (i, a) in all.iter().enumerate() {
        assert!(!a.message().is_empty());
        for b in all.iter().skip(i + 1) {
            assert_ne!(a.message(), b.message());
        }
    }
    assert!(Error::UnsupportedFormatVersion.message().contains("Unsupported repositoryformatversion"));
}

#[test]
fn added_since_lists_what_is_new() {
    let mut tree = FileTree::new();
    let dir = FilePath::new("/").join("a");
    tree.create_dir_all(&dir).unwrap();
    let before = tree.paths();
    assert!(tree.added_since(&before).is_empty());
    tree.create_new(&dir.join("f"), b"x".to_vec()).unwrap();
    tree.create_dir_all(&dir.join("b").join("c")).unwrap();
    let added = tree.added_since(&before);
    assert_eq!(added.len(), 3);
    assert!(added.iter().any(|p| p.same(&dir.join("f"))));
    assert!(added.iter().any(|p| p.same(&dir.join("b"))));
    assert!(added.iter().any(|p| p.same(&dir.join("b").join("c"))));
    assert!(!added.iter().any(|p| p.same(&dir)));
    assert_eq!(tree.added_since(&Vec::new()).len(), 5);
    assert!(tree.added_since(&tree.paths()).is_empty());
}
