use legit::path::FilePath;
use legit::settings::Settings;
use legit::tree::FileTree;
use legit::{Error, Repository};

fn no_env() -> Vec<(String, String)> {
    Vec::new()
}

fn root() -> FilePath {
    FilePath::new("/").join("tmp").join("work")
}

fn below(path: &FilePath, names: &[&str]) -> FilePath {
    let mut path = path.clone();
    for name in names.iter() {
        path = path.join(name);
    }
    path
}

#[test]
fn test_repository_new_no_gitdir() {
    let tree = FileTree::new();
    let repo = Repository::find(&root(), &tree, &no_env());
    assert_eq!(repo.unwrap_err().message(), "Not a git repository");
}

#[test]
fn test_repository_new_no_gitdir_force() {
    let mut tree = FileTree::new();
    let repo = Repository::new(&root(), &mut tree, &no_env());
    assert!(repo.is_ok());
}

#[test]
fn test_repository_new_is_gitdir() {
    let mut tree = FileTree::new();
    let gitdir = root().join(".git");
    let config = gitdir.join("config.ini");
    tree.create_dir_all(&gitdir).unwrap();
    tree.create_new(&config, Vec::new()).unwrap();
    let repo = Repository::find(&root(), &tree, &no_env());
    assert!(repo.is_ok());
}

#[test]
fn lib_test_create() {
    let mut tree = FileTree::new();
    let repo = Repository::new(&root(), &mut tree, &no_env());
    assert!(repo.is_ok());

    let expected_dirs = [
        vec![".git"],
        vec![".git", "branches"],
        vec![".git", "objects"],
        vec![".git", "refs", "tags"],
        vec![".git", "refs", "heads"],
    ];
    for dir in expected_dirs.iter() {
        assert!(tree.contains(&below(&root(), dir)));
    }

    let expected_files = [
        vec![".git", "description"],
        vec![".git", "HEAD"],
        vec![".git", "config"],
    ];
    for file in expected_files.iter() {
        assert!(tree.contains(&below(&root(), file)));
    }
}

#[test]
fn test_new() {
    let mut tree = FileTree::new();
    let repo = Repository::new(&root(), &mut tree, &no_env());
    assert!(repo.is_ok());
}

#[test]
fn repository_test_create() {
    let mut tree = FileTree::new();
    let _ = Repository::new(&root(), &mut tree, &no_env()).unwrap();
    let expected_dirs = [
        vec![".git"],
        vec![".git", "branches"],
        vec![".git", "objects"],
        vec![".git", "refs", "tags"],
        vec![".git", "refs", "heads"],
    ];
    for dir in expected_dirs.iter() {
        assert!(tree.is_dir(&below(&root(), dir)));
    }

    let expected_files = [
        vec![".git", "description"],
        vec![".git", "HEAD"],
        vec![".git", "config"],
    ];
    for file in expected_files.iter() {
        assert!(tree.read(&below(&root(), file)).is_some());
    }
}

#[test]
fn test_find() {
    let mut tree = FileTree::new();
    let gitdir = root().join(".git");
    tree.create_dir_all(&gitdir).unwrap();
    let repo = Repository::find(&root(), &tree, &no_env()).unwrap();
    assert!(repo.worktree().same(&root()));
}

#[test]
fn test_find_parent() {
    let mut tree = FileTree::new();
    let subdir = root().join("subdir");
    let gitdir = root().join(".git");
    tree.create_dir_all(&gitdir).unwrap();
    tree.create_dir_all(&subdir).unwrap();

    let repo = Repository::find(&subdir, &tree, &no_env()).unwrap();
    assert!(repo.worktree().same(&root()));
}

#[test]
fn find_from_three_levels_below() {
    let mut tree = FileTree::new();
    Repository::new(&root(), &mut tree, &no_env()).unwrap();
    let deep = below(&root(), &["a", "b", "c"]);
    tree.create_dir_all(&deep).unwrap();
    let repo = Repository::find(&deep, &tree, &no_env()).unwrap();
    assert!(repo.worktree().same(&root()));
    assert!(repo.gitdir().same(&root().join(".git")));
    assert_eq!(*repo.settings(), Settings::defaults());
}

#[test]
fn find_takes_the_nearest_repository() {
    let mut tree = FileTree::new();
    Repository::new(&root(), &mut tree, &no_env()).unwrap();
    let inner = below(&root(), &["a", "b"]);
    Repository::new(&inner, &mut tree, &no_env()).unwrap();
    let repo = Repository::find(&inner.join("c"), &tree, &no_env()).unwrap();
    assert!(repo.worktree().same(&inner));
    let outer = Repository::find(&root().join("a"), &tree, &no_env()).unwrap();
    assert!(outer.worktree().same(&root()));
}

#[test]
fn find_fails_at_the_root() {
    let mut tree = FileTree::new();
    tree.create_dir_all(&below(&root(), &["a", "b"])).unwrap();
    let result = Repository::find(&below(&root(), &["a", "b"]), &tree, &no_env());
    assert_eq!(result.unwrap_err(), Error::NoRepository);
    let relative = FilePath::new("").join("somewhere");
    let result = Repository::find(&relative, &tree, &no_env());
    assert_eq!(result.unwrap_err(), Error::NoRepository);
}

#[test]
fn find_rejects_other_format_versions() {
    let mut tree = FileTree::new();
    let gitdir = root().join(".git");
    tree.create_dir_all(&gitdir).unwrap();
    tree.create_new(&gitdir.join("config"), b"[core]\nrepositoryformatversion = 1\n".to_vec())
        .unwrap();
    let result = Repository::find(&root(), &tree, &no_env());
    assert_eq!(result.unwrap_err(), Error::UnsupportedFormatVersion);
}

#[test]
fn find_rejects_a_malformed_config() {
    let mut tree = FileTree::new();
    let gitdir = root().join(".git");
    tree.create_dir_all(&gitdir).unwrap();
    tree.create_new(&gitdir.join("config"), b"[core".to_vec()).unwrap();
    let result = Repository::find(&root(), &tree, &no_env());
    assert_eq!(result.unwrap_err(), Error::ConfigError);

    let mut tree = FileTree::new();
    tree.create_dir_all(&gitdir).unwrap();
    tree.create_new(&gitdir.join("config"), vec![0xff, 0xfe]).unwrap();
    let result = Repository::find(&root(), &tree, &no_env());
    assert_eq!(result.unwrap_err(), Error::ConfigError);
}

#[test]
fn find_reads_the_config_of_the_repository() {
    let mut tree = FileTree::new();
    let gitdir = root().join(".git");
    tree.create_dir_all(&gitdir).unwrap();
    tree.create_new(&gitdir.join("config"), b"[core]\nbare = true\nfilemode = false\n".to_vec())
        .unwrap();
    let repo = Repository::find(&root(), &tree, &no_env()).unwrap();
    assert!(repo.settings().core.bare);
    assert!(!repo.settings().core.filemode);
    assert_eq!(repo.settings().core.repositoryformatversion, 0);
}

#[test]
fn new_writes_head_description_and_config() {
    let mut tree = FileTree::new();
    let repo = Repository::new(&root(), &mut tree, &no_env()).unwrap();
    assert!(repo.worktree().same(&root()));
    assert!(repo.gitdir().same(&root().join(".git")));
    let gitdir = root().join(".git");
    assert_eq!(
        tree.read(&gitdir.join("HEAD")).unwrap().as_slice(),
        b"ref: refs/heads/master\n"
    );
    assert_eq!(
        tree.read(&gitdir.join("description")).unwrap().as_slice(),
        b"Unnamed repository; edit this file 'description' to name the repository."
    );
    let config = String::from_utf8(tree.read(&gitdir.join("config")).unwrap().clone()).unwrap();
    assert_eq!(config, Settings::defaults().to_toml().unwrap());
    assert_eq!(Settings::new(Some(&config), &no_env()).unwrap(), Settings::defaults());
    assert!(tree.is_dir(&root()));
    assert!(tree.is_dir(&gitdir.join("refs")));
    assert_eq!(tree.paths().len(), 12);
}

#[test]
fn new_fails_where_a_repository_exists_and_changes_nothing() {
    let mut tree = FileTree::new();
    Repository::new(&root(), &mut tree, &no_env()).unwrap();
    let head = root().join(".git").join("HEAD");
    let before = tree.read(&head).unwrap().clone();
    let count = tree.paths().len();
    let again = Repository::new(&root(), &mut tree, &no_env());
    assert_eq!(again.unwrap_err(), Error::AlreadyInitialized);
    assert_eq!(again_message(), "Directory is already a git repository");
    assert_eq!(tree.read(&head).unwrap(), &before);
    assert_eq!(tree.paths().len(), count);
}

fn again_message() -> String {
    Error::AlreadyInitialized.message()
}

#[test]
fn new_fails_where_a_file_stands_in_the_way() {
    let mut tree = FileTree::new();
    tree.create_dir_all(&FilePath::new("/").join("tmp")).unwrap();
    tree.create_new(&root(), b"a file".to_vec()).unwrap();
    let count = tree.paths().len();
    let result = Repository::new(&root(), &mut tree, &no_env());
    assert_eq!(result.unwrap_err(), Error::IOError);
    assert_eq!(tree.paths().len(), count);
}

#[test]
fn new_rejects_other_format_versions_from_the_environment() {
    let mut tree = FileTree::new();
    let env = vec![("LEGIT_CORE.REPOSITORYFORMATVERSION".to_string(), "1".to_string())];
    let result = Repository::new(&root(), &mut tree, &env);
    assert_eq!(result.unwrap_err(), Error::UnsupportedFormatVersion);
    assert_eq!(tree.paths().len(), 0);
}

#[test]
fn found_repository_after_new_has_the_same_paths() {
    let mut tree = FileTree::new();
    let made = Repository::new(&root(), &mut tree, &no_env()).unwrap();
    let found = Repository::find(&root(), &tree, &no_env()).unwrap();
    assert!(found.worktree().same(made.worktree()));
    assert!(found.gitdir().same(made.gitdir()));
    assert_eq!(found.settings(), made.settings());
}
