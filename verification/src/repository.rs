//! The repository: a working tree and the metadata directory inside it, found
//! from a path below it or laid out anew.

use crate::error::Error;
use crate::path::{lemma_join, lemma_prefix_of_join, lemma_prefix_order, FilePath, PathView};
use crate::settings::{default_settings, settings_text, settings_toml, toml_loads, Settings};
use crate::text::text_of;
use crate::tree::{
    blocked, extends, is_tree, lemma_absent_below, lemma_not_blocked_below, lemma_with_dirs,
    lemma_with_dirs_keeps, with_dirs, FileTree, NodeView,
};
use vstd::prelude::*;
use vstd::string::StrSliceExecFns;
use vstd::utf8::{decode_utf8, encode_utf8, encode_utf8_decode_utf8, valid_utf8};

verus! {

/// The name of the metadata directory inside a working tree.
pub open spec fn git_dir_name() -> Seq<char> {
    ".git"@
}

/// The text of the `description` file of a new repository.
pub open spec fn description_text() -> Seq<char> {
    "Unnamed repository; edit this file 'description' to name the repository."@
}

/// The text of the `HEAD` file of a new repository: a symbolic reference to
/// the default branch.
pub open spec fn head_text() -> Seq<char> {
    "ref: refs/heads/master\n"@
}

/// The nearest path, `p` itself or one of its ancestors, that holds a
/// metadata directory in `m`.
pub open spec fn nearest_repository(m: Map<PathView, NodeView>, p: PathView) -> Option<PathView>
    decreases p.segments.len(),
{
    if m.dom().contains(p.join(git_dir_name())) {
        Some(p)
    } else if p.segments.len() == 0 {
        None
    } else {
        nearest_repository(m, p.parent().unwrap())
    }
}

/// A repository is found from three directories below its working tree,
/// where none of the directories between holds a metadata directory.
pub proof fn lemma_found_from_three_below(
    m: Map<PathView, NodeView>,
    worktree: PathView,
    a: Seq<char>,
    b: Seq<char>,
    c: Seq<char>,
)
    requires
        m.dom().contains(worktree.join(git_dir_name())),
        !m.dom().contains(worktree.join(a).join(git_dir_name())),
        !m.dom().contains(worktree.join(a).join(b).join(git_dir_name())),
        !m.dom().contains(worktree.join(a).join(b).join(c).join(git_dir_name())),
    ensures
        nearest_repository(m, worktree.join(a).join(b).join(c)) == Some(worktree),
{
    let one = worktree.join(a);
    let two = one.join(b);
    let three = two.join(c);
    lemma_join(worktree, a);
    lemma_join(one, b);
    lemma_join(two, c);
    assert(nearest_repository(m, worktree) == Some(worktree));
    assert(nearest_repository(m, one) == Some(worktree));
    assert(nearest_repository(m, two) == Some(worktree));
    assert(nearest_repository(m, three) == Some(worktree));
}

/// The content of the configuration file of the repository with working tree
/// `worktree`, where `m` holds one: the file `config` in the metadata
/// directory.
pub open spec fn config_file(m: Map<PathView, NodeView>, worktree: PathView) -> Option<Seq<u8>> {
    let path = worktree.join(git_dir_name()).join("config"@);
    if m.dom().contains(path) && m[path] is File {
        Some(m[path]->File_0)
    } else {
        None
    }
}

/// The directories of a new repository with metadata directory `g`, made in
/// `m`.
pub open spec fn initial_dirs(m: Map<PathView, NodeView>, g: PathView) -> Map<PathView, NodeView> {
    with_dirs(
        with_dirs(
            with_dirs(with_dirs(m, g.join("branches"@)), g.join("objects"@)),
            g.join("refs"@).join("tags"@),
        ),
        g.join("refs"@).join("heads"@),
    )
}

/// The layout of a new repository with metadata directory `g`, made in `m`:
/// its directories, and the files `description`, `HEAD` and `config`.
pub open spec fn initial_layout(m: Map<PathView, NodeView>, g: PathView, config: Seq<u8>) -> Map<
    PathView,
    NodeView,
> {
    initial_dirs(m, g).insert(
        g.join("description"@),
        NodeView::File(encode_utf8(description_text())),
    ).insert(g.join("HEAD"@), NodeView::File(encode_utf8(head_text()))).insert(
        g.join("config"@),
        NodeView::File(config),
    )
}

/// The names of the files of a new repository differ from one another and
/// from the names of its directories.
proof fn lemma_layout_names()
    ensures
        "description"@ != "branches"@,
        "description"@ != "objects"@,
        "description"@ != "refs"@,
        "HEAD"@ != "branches"@,
        "HEAD"@ != "objects"@,
        "HEAD"@ != "refs"@,
        "config"@ != "branches"@,
        "config"@ != "objects"@,
        "config"@ != "refs"@,
        "description"@ != "HEAD"@,
        "description"@ != "config"@,
        "HEAD"@ != "config"@,
{
    reveal_strlit("description");
    reveal_strlit("HEAD");
    reveal_strlit("config");
    reveal_strlit("branches");
    reveal_strlit("objects");
    reveal_strlit("refs");
    assert("description"@.len() == 11);
    assert("HEAD"@.len() == 4);
    assert("config"@.len() == 6);
    assert("branches"@.len() == 8);
    assert("objects"@.len() == 7);
    assert("refs"@.len() == 4);
    assert("HEAD"@[0] == 'H');
    assert("refs"@[0] == 'r');
}

/// A directory that cannot be made at a path cannot be made below it.
proof fn lemma_blocked_below(m: Map<PathView, NodeView>, g: PathView, name: Seq<char>)
    requires
        blocked(m, g),
    ensures
        blocked(m, g.join(name)),
{
    let k = choose|k: int|
        0 <= k <= g.segments.len() && m.dom().contains(#[trigger] g.prefix(k)) && m[g.prefix(k)]
            is File;
    assert(g.join(name).prefix(k).segments =~= g.prefix(k).segments);
    assert(g.join(name).prefix(k) == g.prefix(k));
}

/// In a tree without a metadata directory at `g`, a file of the new layout
/// whose name is not that of one of its directories does not exist once the
/// directories are made, and `g` is then a directory.
proof fn lemma_file_is_new(m: Map<PathView, NodeView>, g: PathView, name: Seq<char>)
    requires
        is_tree(m),
        !m.dom().contains(g),
        name != "branches"@,
        name != "objects"@,
        name != "refs"@,
    ensures
        !initial_dirs(m, g).dom().contains(g.join(name)),
        initial_dirs(m, g).dom().contains(g),
        initial_dirs(m, g)[g] is Directory,
        g.join(name).parent() == Some(g),
{
    let q = g.join(name);
    let refs = g.join("refs"@);
    let a1 = g.join("branches"@);
    let a2 = g.join("objects"@);
    let a3 = refs.join("tags"@);
    let a4 = refs.join("heads"@);
    let m1 = with_dirs(m, a1);
    let m2 = with_dirs(m1, a2);
    let m3 = with_dirs(m2, a3);
    lemma_join(g, name);
    lemma_join(g, "branches"@);
    lemma_join(g, "objects"@);
    lemma_join(g, "refs"@);
    lemma_join(refs, "tags"@);
    lemma_join(refs, "heads"@);
    lemma_prefix_order(g, q, q);
    lemma_absent_below(m, g, q);
    lemma_prefix_of_join(q, g, "branches"@);
    lemma_prefix_of_join(q, g, "objects"@);
    lemma_prefix_of_join(q, g, "refs"@);
    lemma_prefix_of_join(q, refs, "tags"@);
    lemma_prefix_of_join(q, refs, "heads"@);
    lemma_with_dirs(m, a1, q);
    lemma_with_dirs(m1, a2, q);
    lemma_with_dirs(m2, a3, q);
    lemma_with_dirs(m3, a4, q);
    lemma_with_dirs(m, a1, g);
    lemma_with_dirs(m1, a2, g);
    lemma_with_dirs(m2, a3, g);
    lemma_with_dirs(m3, a4, g);
}

/// What a repository is: its working tree, its metadata directory and its
/// settings.
pub struct RepositoryView {
    pub worktree: PathView,
    pub gitdir: PathView,
    pub settings: Settings,
}

/// A repository. Its metadata directory is `.git` inside its working tree,
/// and its storage format is version 0.
#[derive(Debug)]
pub struct Repository {
    worktree: FilePath,
    gitdir: FilePath,
    settings: Settings,
}

impl View for Repository {
    type V = RepositoryView;

    closed spec fn view(&self) -> RepositoryView {
        RepositoryView {
            worktree: self.worktree@,
            gitdir: self.gitdir@,
            settings: self.settings,
        }
    }
}

impl Repository {
    #[verifier::type_invariant]
    spec fn well_formed(&self) -> bool {
        self.gitdir@ == self.worktree@.join(git_dir_name())
            && self.settings.core.repositoryformatversion == 0
    }

    /// The path of the working tree.
    pub fn worktree(&self) -> (path: &FilePath)
        ensures
            path@ == self@.worktree,
    {
        &self.worktree
    }

    /// The path of the metadata directory: `.git` inside the working tree.
    pub fn gitdir(&self) -> (path: &FilePath)
        ensures
            path@ == self@.gitdir,
            path@ == self@.worktree.join(git_dir_name()),
    {
        proof {
            use_type_invariant(self);
        }
        &self.gitdir
    }

    /// The settings of the repository. Their format version is 0.
    pub fn settings(&self) -> (settings: &Settings)
        ensures
            *settings == self@.settings,
            settings.core.repositoryformatversion == 0,
    {
        proof {
            use_type_invariant(self);
        }
        &self.settings
    }

    /// The repository with working tree `worktree` and the given settings.
    /// Fails with `UnsupportedFormatVersion` unless the settings declare
    /// format version 0.
    pub fn open(worktree: FilePath, settings: Settings) -> (result: Result<Repository, Error>)
        ensures
            match result {
                Ok(repo) => settings.core.repositoryformatversion == 0 && repo@ == (RepositoryView {
                    worktree: worktree@,
                    gitdir: worktree@.join(git_dir_name()),
                    settings,
                }),
                Err(e) => e == Error::UnsupportedFormatVersion
                    && settings.core.repositoryformatversion != 0,
            },
    {
        if settings.core.repositoryformatversion != 0 {
            return Err(Error::UnsupportedFormatVersion);
        }
        let gitdir = worktree.join(".git");
        Ok(Repository { worktree, gitdir, settings })
    }

    /// Makes a new repository with working tree `path` in `tree`, with the
    /// default settings under the environment variables `env`.
    ///
    /// Fails with `AlreadyInitialized` where the metadata directory exists;
    /// otherwise with `ConfigError` where the settings cannot be resolved,
    /// with `UnsupportedFormatVersion` where they declare a format other than
    /// 0, and with `IOError` where a file stands in the way of the metadata
    /// directory or the settings cannot be written. A failure changes
    /// nothing. On success the tree holds the layout that `create` makes.
    /// Without variables the settings are the defaults, and the repository is
    /// made unless the metadata directory exists, a file stands in its way or
    /// the defaults cannot be written.
    pub fn new(path: &FilePath, tree: &mut FileTree, env: &Vec<(String, String)>) -> (result:
        Result<Repository, Error>)
        ensures
            match result {
                Ok(repo) => !old(tree)@.dom().contains(path@.join(git_dir_name())) && !blocked(
                    old(tree)@,
                    path@.join(git_dir_name()),
                ) && repo@ == (RepositoryView {
                    worktree: path@,
                    gitdir: path@.join(git_dir_name()),
                    settings: repo@.settings,
                }) && repo@.settings.core.repositoryformatversion == 0 && final(tree)@
                    == initial_layout(
                    old(tree)@,
                    path@.join(git_dir_name()),
                    encode_utf8(settings_text(repo@.settings)),
                ) && extends(final(tree)@, old(tree)@) && final(tree)@.dom().contains(
                    path@.join(git_dir_name()),
                ),
                Err(e) => final(tree)@ == old(tree)@ && (e == Error::AlreadyInitialized
                    <==> old(tree)@.dom().contains(path@.join(git_dir_name()))) && (e
                    == Error::AlreadyInitialized || e == Error::ConfigError || e
                    == Error::UnsupportedFormatVersion || e == Error::IOError),
            },
            env@.len() == 0 ==> match result {
                Ok(repo) => repo@.settings == default_settings(),
                Err(e) => e == (if old(tree)@.dom().contains(path@.join(git_dir_name())) {
                    Error::AlreadyInitialized
                } else {
                    Error::IOError
                }) && (old(tree)@.dom().contains(path@.join(git_dir_name())) || settings_toml(
                    default_settings(),
                ) is None || blocked(old(tree)@, path@.join(git_dir_name()))),
            },
            env@.len() == 0 && !old(tree)@.dom().contains(path@.join(git_dir_name())) && !blocked(
                old(tree)@,
                path@.join(git_dir_name()),
            ) && settings_toml(default_settings()) is Some ==> result is Ok,
    {
        if tree.contains(&path.join(".git")) {
            return Err(Error::AlreadyInitialized);
        }
        match Settings::new(None, env) {
            Ok(settings) => Repository::create(path, &settings, tree),
            Err(e) => Err(e),
        }
    }

    /// Lays out a new repository with working tree `path` and the given
    /// settings in `tree`: the working tree and the metadata directory with
    /// its subdirectories `branches`, `objects`, `refs/tags` and `refs/heads`,
    /// the files `description` and `HEAD`, and the file `config` with the
    /// settings.
    ///
    /// Fails with `AlreadyInitialized` where the metadata directory exists,
    /// otherwise with `UnsupportedFormatVersion` where the settings declare a
    /// format other than 0, otherwise with `IOError` where a file stands in
    /// the way of the metadata directory or the settings cannot be written.
    /// It fails in no other case, and a failure changes nothing.
    pub fn create(path: &FilePath, settings: &Settings, tree: &mut FileTree) -> (result: Result<
        Repository,
        Error,
    >)
        ensures
            match result {
                Ok(repo) => !old(tree)@.dom().contains(path@.join(git_dir_name()))
                    && settings.core.repositoryformatversion == 0 && !blocked(
                    old(tree)@,
                    path@.join(git_dir_name()),
                ) && repo@ == (RepositoryView {
                    worktree: path@,
                    gitdir: path@.join(git_dir_name()),
                    settings: *settings,
                }) && settings_toml(*settings) is Some && final(tree)@ == initial_layout(
                    old(tree)@,
                    path@.join(git_dir_name()),
                    encode_utf8(settings_text(*settings)),
                ) && extends(final(tree)@, old(tree)@) && final(tree)@.dom().contains(
                    path@.join(git_dir_name()),
                ),
                Err(e) => final(tree)@ == old(tree)@ && e == (if old(tree)@.dom().contains(
                    path@.join(git_dir_name()),
                ) {
                    Error::AlreadyInitialized
                } else if settings.core.repositoryformatversion != 0 {
                    Error::UnsupportedFormatVersion
                } else {
                    Error::IOError
                }) && (old(tree)@.dom().contains(path@.join(git_dir_name()))
                    || settings.core.repositoryformatversion != 0 || settings_toml(*settings)
                    is None || blocked(old(tree)@, path@.join(git_dir_name()))),
            },
    {
        let gitdir = path.join(".git");
        if tree.contains(&gitdir) {
            return Err(Error::AlreadyInitialized);
        }
        if settings.core.repositoryformatversion != 0 {
            return Err(Error::UnsupportedFormatVersion);
        }
        let config = match settings.to_toml() {
            Some(text) => text.as_str().as_bytes_vec(),
            None => {
                return Err(Error::IOError);
            },
        };
        let ghost before = tree@;
        let ghost g = gitdir@;
        let refs = gitdir.join("refs");
        let branches = gitdir.join("branches");
        let objects = gitdir.join("objects");
        let tags = refs.join("tags");
        let heads = refs.join("heads");
        proof {
            lemma_join(g, "branches"@);
            lemma_join(g, "objects"@);
            lemma_join(g, "refs"@);
            lemma_join(refs@, "tags"@);
            lemma_join(refs@, "heads"@);
            lemma_prefix_order(g, refs@, tags@);
            lemma_prefix_order(g, refs@, heads@);
            if blocked(before, g) {
                lemma_blocked_below(before, g, "branches"@);
            }
        }
        match tree.create_dir_all(&branches) {
            Ok(()) => {},
            Err(_) => {
                proof {
                    if !blocked(before, g) {
                        lemma_not_blocked_below(before, g, branches@);
                    }
                }
                return Err(Error::IOError);
            },
        }
        proof {
            lemma_not_blocked_below(before, g, objects@);
            lemma_not_blocked_below(before, g, tags@);
            lemma_not_blocked_below(before, g, heads@);
            lemma_with_dirs_keeps(before, branches@, objects@);
            lemma_with_dirs_keeps(before, branches@, tags@);
            lemma_with_dirs_keeps(before, branches@, heads@);
        }
        let ghost m1 = tree@;
        match tree.create_dir_all(&objects) {
            Ok(()) => {},
            Err(_) => {
                assert(false);
                return Err(Error::IOError);
            },
        }
        proof {
            lemma_with_dirs_keeps(m1, objects@, tags@);
            lemma_with_dirs_keeps(m1, objects@, heads@);
        }
        let ghost m2 = tree@;
        match tree.create_dir_all(&tags) {
            Ok(()) => {},
            Err(_) => {
                assert(false);
                return Err(Error::IOError);
            },
        }
        proof {
            lemma_with_dirs_keeps(m2, tags@, heads@);
        }
        match tree.create_dir_all(&heads) {
            Ok(()) => {},
            Err(_) => {
                assert(false);
                return Err(Error::IOError);
            },
        }
        assert(tree@ == initial_dirs(before, g));
        proof {
            lemma_layout_names();
            lemma_file_is_new(before, g, "description"@);
            lemma_file_is_new(before, g, "HEAD"@);
            lemma_file_is_new(before, g, "config"@);
            lemma_join(g, "description"@);
            lemma_join(g, "HEAD"@);
            lemma_join(g, "config"@);
        }
        let description =
            "Unnamed repository; edit this file 'description' to name the repository.".as_bytes_vec();
        match tree.create_new(&gitdir.join("description"), description) {
            Ok(()) => {},
            Err(_) => {
                assert(false);
                return Err(Error::IOError);
            },
        }
        let head = "ref: refs/heads/master\n".as_bytes_vec();
        match tree.create_new(&gitdir.join("HEAD"), head) {
            Ok(()) => {},
            Err(_) => {
                assert(false);
                return Err(Error::IOError);
            },
        }
        match tree.create_new(&gitdir.join("config"), config) {
            Ok(()) => {},
            Err(_) => {
                assert(false);
                return Err(Error::IOError);
            },
        }
        Repository::open(path.clone(), *settings)
    }

    /// Looks for a repository at `path` and then at each of its ancestors in
    /// turn, and opens the first one that holds a metadata directory in
    /// `tree`, with the settings that its `config` file (where it is a file of
    /// the tree) and the environment variables `env` give; a `config` file
    /// that is not valid UTF-8 or does not load as TOML is a `ConfigError`.
    /// Fails with
    /// `NoRepository` where neither `path` nor any ancestor holds one, with
    /// `ConfigError` where the settings cannot be resolved, and with
    /// `UnsupportedFormatVersion` where they declare a format other than 0.
    pub fn find(path: &FilePath, tree: &FileTree, env: &Vec<(String, String)>) -> (result: Result<
        Repository,
        Error,
    >)
        ensures
            match nearest_repository(tree@, path@) {
                None => result == Err::<Repository, Error>(Error::NoRepository),
                Some(worktree) => match result {
                    Ok(repo) => repo@.worktree == worktree && repo@.gitdir == worktree.join(
                        git_dir_name(),
                    ) && repo@.settings.core.repositoryformatversion == 0,
                    Err(e) => e == Error::ConfigError || e == Error::UnsupportedFormatVersion,
                },
            },
            nearest_repository(tree@, path@) is Some && env@.len() == 0 && !(tree@.dom().contains(
                nearest_repository(tree@, path@).unwrap().join(git_dir_name()).join("config"@),
            ) && tree@[nearest_repository(tree@, path@).unwrap().join(git_dir_name()).join(
                "config"@,
            )] is File) ==> result is Ok && result.unwrap()@.settings == default_settings(),
            nearest_repository(tree@, path@) is Some ==> match config_file(
                tree@,
                nearest_repository(tree@, path@).unwrap(),
            ) {
                Some(bytes) => !valid_utf8(bytes) || !toml_loads(decode_utf8(bytes)) ==> result
                    == Err::<Repository, Error>(Error::ConfigError),
                None => true,
            },
    {
        let mut current = path.clone();
        loop
            invariant
                nearest_repository(tree@, current@) == nearest_repository(tree@, path@),
            ensures
                tree@.dom().contains(current@.join(git_dir_name())),
            decreases current@.segments.len(),
        {
            let gitdir = current.join(".git");
            if tree.contains(&gitdir) {
                break ;
            }
            match current.parent() {
                None => {
                    return Err(Error::NoRepository);
                },
                Some(parent) => {
                    current = parent;
                },
            }
        }
        assert(nearest_repository(tree@, path@) == Some(current@));
        let config = current.join(".git").join("config");
        let settings = match tree.read(&config) {
            None => Settings::new(None, env),
            Some(bytes) => match text_of(bytes.as_slice()) {
                None => Err(Error::ConfigError),
                Some(text) => {
                    proof {
                        encode_utf8_decode_utf8(text@);
                    }
                    Settings::new(Some(text.as_str()), env)
                },
            },
        };
        match settings {
            Err(e) => Err(e),
            Ok(settings) => Repository::open(current, settings),
        }
    }
}

} // verus!
