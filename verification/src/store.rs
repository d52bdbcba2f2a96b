//! The object store: objects kept compressed in the file tree, each under the
//! path that its hash names.

use crate::error::Error;
use crate::hash::{hex_encode, ObjectHash};
use crate::objects::{decode_object, encode_object, object_digest, Object, ObjectType};
use crate::path::{lemma_join, lemma_prefix_of_join, FilePath, PathView};
use crate::repository::Repository;
use crate::tree::{blocked, extends, lemma_with_dirs, with_dirs, FileTree, NodeView};
use vstd::prelude::*;

verus! {

/// The path of the object named `hash` in the repository with metadata
/// directory `gitdir`: `objects`, then a directory named by the first two
/// hexadecimal digits of the hash, then a file named by the other 38.
pub open spec fn object_path(gitdir: PathView, hash: Seq<u8>) -> PathView {
    gitdir.join("objects"@).join(hex_encode(hash).subrange(0, 2)).join(
        hex_encode(hash).subrange(2, 40),
    )
}

/// What reading the object named `hash` from the tree `m` gives: `NotFound`
/// where nothing exists at its path, `IOError` where a directory does, the
/// fault of the stored bytes where they do not hold an object, `HashMismatch`
/// where they hold one of another name, and else the object's kind and
/// payload.
pub open spec fn stored_object(m: Map<PathView, NodeView>, gitdir: PathView, hash: Seq<u8>) -> Result<
    (ObjectType, Seq<u8>),
    Error,
> {
    let path = object_path(gitdir, hash);
    if !m.dom().contains(path) {
        Err(Error::NotFound)
    } else {
        match m[path] {
            NodeView::Directory => Err(Error::IOError),
            NodeView::File(stored) => match decode_object(stored) {
                Err(e) => Err(e),
                Ok((kind, data)) => if object_digest(kind, data) == hash {
                    Ok((kind, data))
                } else {
                    Err(Error::HashMismatch)
                },
            },
        }
    }
}

/// An object that was put under the path of its own hash is read back from
/// there as it was: for every kind and payload, every tree and every stored
/// form that decodes to them.
pub proof fn lemma_read_after_write(
    m: Map<PathView, NodeView>,
    gitdir: PathView,
    kind: ObjectType,
    data: Seq<u8>,
    stored: Seq<u8>,
)
    requires
        decode_object(stored) == Ok::<(ObjectType, Seq<u8>), Error>((kind, data)),
    ensures
        stored_object(
            m.insert(object_path(gitdir, object_digest(kind, data)), NodeView::File(stored)),
            gitdir,
            object_digest(kind, data),
        ) == Ok::<(ObjectType, Seq<u8>), Error>((kind, data)),
{
}

/// Where something exists at the path of a hash, what is read for that hash
/// does not depend on the rest of the tree.
pub proof fn lemma_read_depends_on_one_path(
    m: Map<PathView, NodeView>,
    other: Map<PathView, NodeView>,
    gitdir: PathView,
    hash: Seq<u8>,
)
    requires
        m.dom().contains(object_path(gitdir, hash)),
        other.dom().contains(object_path(gitdir, hash)),
        m[object_path(gitdir, hash)] == other[object_path(gitdir, hash)],
    ensures
        stored_object(m, gitdir, hash) == stored_object(other, gitdir, hash),
{
}

/// The path of the object named `hash` in `repo`.
pub fn path_of(repo: &Repository, hash: &ObjectHash) -> (path: FilePath)
    ensures
        path@ == object_path(repo@.gitdir, hash@),
{
    let (dir, file) = hash.as_path_parts();
    repo.gitdir().join("objects").join(dir.as_str()).join(file.as_str())
}

impl Object {
    /// The path under which the object is kept in `repo`.
    pub fn file_path(&self, repo: &Repository) -> (path: FilePath)
        ensures
            path@ == object_path(repo@.gitdir, object_digest(self@.kind, self@.data)),
    {
        let hash = self.hash();
        path_of(repo, &hash)
    }
}

/// Reads the object named `hash` from the store of `repo` in `tree`, checks
/// its stored form and that it hashes to `hash`.
pub fn read_object(repo: &Repository, hash: &ObjectHash, tree: &FileTree) -> (result: Result<
    Object,
    Error,
>)
    ensures
        match result {
            Ok(object) => stored_object(tree@, repo@.gitdir, hash@) == Ok::<
                (ObjectType, Seq<u8>),
                Error,
            >((object@.kind, object@.data)),
            Err(e) => stored_object(tree@, repo@.gitdir, hash@) == Err::<
                (ObjectType, Seq<u8>),
                Error,
            >(e),
        },
{
    let path = path_of(repo, hash);
    if !tree.contains(&path) {
        return Err(Error::NotFound);
    }
    let stored = match tree.read(&path) {
        Some(stored) => stored,
        None => {
            return Err(Error::IOError);
        },
    };
    let object = match Object::decode(stored.as_slice()) {
        Ok(object) => object,
        Err(e) => {
            return Err(e);
        },
    };
    if !object.hash().same(hash) {
        return Err(Error::HashMismatch);
    }
    Ok(object)
}

/// Writes `object` to the store of `repo` in `tree`, under the path that its
/// hash names, and returns the hash. An object is written once: where
/// something exists at that path the write fails with `AlreadyExists`.
/// Otherwise the directories down to the file are made and the stored form
/// of the object, its compressed serialization, is put there; `IOError`
/// where, and only where, the compressor fails or a file stands in the way of
/// the directories. A failure changes nothing. What was written is read back
/// as the same kind and payload.
pub fn write_object(object: &Object, repo: &Repository, tree: &mut FileTree) -> (result: Result<
    ObjectHash,
    Error,
>)
    ensures
        match result {
            Ok(hash) => {
                let path = object_path(repo@.gitdir, hash@);
                &&& hash@ == object_digest(object@.kind, object@.data)
                &&& !old(tree)@.dom().contains(path)
                &&& !blocked(old(tree)@, path.parent().unwrap())
                &&& final(tree)@.dom().contains(path)
                &&& final(tree)@[path] is File
                &&& final(tree)@ == with_dirs(old(tree)@, path.parent().unwrap()).insert(
                    path,
                    final(tree)@[path],
                )
                &&& Some(final(tree)@[path]->File_0) == encode_object(object@.kind, object@.data)
                &&& decode_object(final(tree)@[path]->File_0) == Ok::<(ObjectType, Seq<u8>), Error>(
                    (object@.kind, object@.data),
                )
                &&& extends(final(tree)@, old(tree)@)
                &&& stored_object(final(tree)@, repo@.gitdir, hash@) == Ok::<
                    (ObjectType, Seq<u8>),
                    Error,
                >((object@.kind, object@.data))
            },
            Err(e) => {
                let path = object_path(
                    repo@.gitdir,
                    object_digest(object@.kind, object@.data),
                );
                &&& final(tree)@ == old(tree)@
                &&& e == (if old(tree)@.dom().contains(path) {
                    Error::AlreadyExists
                } else {
                    Error::IOError
                })
                &&& (old(tree)@.dom().contains(path) || encode_object(
                    object@.kind,
                    object@.data,
                ) is None || blocked(old(tree)@, path.parent().unwrap()))
            },
        },
{
    let hash = object.hash();
    let path = object.file_path(repo);
    if tree.contains(&path) {
        return Err(Error::AlreadyExists);
    }
    let stored = match object.encode() {
        Some(stored) => stored,
        None => {
            return Err(Error::IOError);
        },
    };
    let ghost before = tree@;
    let ghost names = hex_encode(hash@);
    let ghost dir = repo@.gitdir.join("objects"@).join(names.subrange(0, 2));
    proof {
        lemma_join(dir, names.subrange(2, 40));
        lemma_prefix_of_join(path@, dir.parent().unwrap(), names.subrange(0, 2));
        lemma_join(repo@.gitdir.join("objects"@), names.subrange(0, 2));
    }
    let parent = match path.parent() {
        Some(parent) => parent,
        None => {
            assert(false);
            return Err(Error::IOError);
        },
    };
    match tree.create_dir_all(&parent) {
        Ok(()) => {},
        Err(e) => {
            return Err(e);
        },
    }
    proof {
        lemma_with_dirs(before, dir, path@);
        lemma_with_dirs(before, dir, dir);
        assert(dir.is_prefix_of(dir)) by {
            assert(dir.prefix(dir.segments.len() as int).segments =~= dir.segments);
        }
        assert(dir.prefix(dir.segments.len() as int) == dir) by {
            assert(dir.prefix(dir.segments.len() as int).segments =~= dir.segments);
        }
    }
    match tree.create_new(&path, stored) {
        Ok(()) => {},
        Err(e) => {
            assert(false);
            return Err(e);
        },
    }
    Ok(hash)
}

} // verus!
