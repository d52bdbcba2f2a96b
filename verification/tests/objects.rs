use flate2::write::ZlibEncoder;
use flate2::Compression;
use legit::decimal::{decimal_text, read_size};
use legit::objects::{find_byte, header_of, read_object, write_object, Object, ObjectType};
use legit::path::FilePath;
use legit::tree::FileTree;
use legit::{Error, ObjectHash, Repository};
use std::io::Write;

fn no_env() -> Vec<(String, String)> {
    Vec::new()
}

fn new_repository(tree: &mut FileTree) -> Repository {
    Repository::new(&FilePath::new("/").join("work"), tree, &no_env()).unwrap()
}

fn compressed(content: &[u8]) -> Vec<u8> {
    let mut encoder = ZlibEncoder::new(Vec::new(), Compression::default());
    encoder.write_all(content).unwrap();
    encoder.finish().unwrap()
}

fn store_raw(tree: &mut FileTree, path: &FilePath, content: Vec<u8>) {
    tree.create_dir_all(&path.parent().unwrap()).unwrap();
    tree.create_new(path, content).unwrap();
}

fn read_stored(header: &str, data: &[u8]) -> Result<Object, Error> {
    let mut tree = FileTree::new();
    let object = Object::new(ObjectType::Blob, b"test".to_vec()).unwrap();
    let repo = new_repository(&mut tree);
    let content = format!("{}{}", header, String::from_utf8_lossy(data));
    store_raw(&mut tree, &object.file_path(&repo), compressed(content.as_bytes()));
    read_object(&repo, &object.hash(), &tree)
}

#[test]
fn test_read_object() {
    let mut tree = FileTree::new();
    let object = Object::new(ObjectType::Blob, b"test".to_vec()).unwrap();
    let repo = new_repository(&mut tree);
    write_object(&object, &repo, &mut tree).unwrap();
    let result = read_object(&repo, &object.hash(), &tree);
    assert!(result.is_ok());
}

#[test]
fn test_read_object_object_doesnt_exist() {
    let mut tree = FileTree::new();
    let object_written = Object::new(ObjectType::Blob, b"test".to_vec()).unwrap();
    let object_not_written = Object::new(ObjectType::Blob, b"other data".to_vec()).unwrap();
    let repo = new_repository(&mut tree);
    write_object(&object_written, &repo, &mut tree).unwrap();
    let result = read_object(&repo, &object_not_written.hash(), &tree);
    assert!(result
        .unwrap_err()
        .message()
        .contains("Object not found at"));
}

#[test]
fn test_read_object_not_encoded() {
    let mut tree = FileTree::new();
    let object = Object::new(ObjectType::Blob, b"test".to_vec()).unwrap();
    let repo = new_repository(&mut tree);
    let object_path = object.file_path(&repo);
    store_raw(&mut tree, &object_path, b"not compressed data".to_vec());
    let result = read_object(&repo, &object.hash(), &tree);
    assert!(result
        .unwrap_err()
        .message()
        .contains("Failed to decompress object data"));
}

#[test]
fn test_read_object_invalid_header() {
    let missing_null = read_stored("blob 4", b"test");
    assert!(missing_null.unwrap_err().message().contains("missing null terminator"));
    let missing_space = read_stored("blob\0", b"test");
    assert!(missing_space.unwrap_err().message().contains("missing type or size"));
    let bad_size = read_stored("blob a\0", b"test");
    assert!(bad_size.unwrap_err().message().contains("Invalid size"));
    let bad_kind = read_stored("invalid 2\0", b"test");
    assert!(bad_kind.unwrap_err().message().contains("Invalid object type"));
    let wrong_size = read_stored("blob 30\0", b"test");
    assert!(wrong_size.unwrap_err().message().contains("Object size mismatch"));
    let good = read_stored("blob 4\0", b"test");
    assert!(good.is_ok());
}

#[test]
fn test_write_object() {
    let mut tree = FileTree::new();
    let object = Object::new(ObjectType::Blob, b"test".to_vec()).unwrap();
    let repo = new_repository(&mut tree);
    let result = write_object(&object, &repo, &mut tree);
    let object_path = object.file_path(&repo);
    assert!(result.is_ok());
    assert!(tree.contains(&object_path));
}

#[test]
fn test_write_object_object_already_exist() {
    let mut tree = FileTree::new();
    let object = Object::new(ObjectType::Blob, b"test".to_vec()).unwrap();
    let repo = new_repository(&mut tree);
    write_object(&object, &repo, &mut tree).unwrap();
    let result = write_object(&object, &repo, &mut tree);
    assert!(result
        .unwrap_err()
        .message()
        .contains("Object already exists at"));
}

#[test]
fn read_errors_by_variant() {
    assert_eq!(read_stored("blob 4", b"test").unwrap_err(), Error::MalformedHeader);
    assert_eq!(read_stored("blob\0", b"test").unwrap_err(), Error::MalformedHeader);
    assert_eq!(read_stored("blob a\0", b"test").unwrap_err(), Error::InvalidSize);
    assert_eq!(read_stored("blob \0", b"test").unwrap_err(), Error::InvalidSize);
    assert_eq!(read_stored("blob -4\0", b"test").unwrap_err(), Error::InvalidSize);
    assert_eq!(read_stored("invalid 2\0", b"test").unwrap_err(), Error::InvalidKind);
    assert_eq!(read_stored("Blob 4\0", b"test").unwrap_err(), Error::InvalidKind);
    assert_eq!(read_stored("invalid a\0", b"test").unwrap_err(), Error::InvalidKind);
    assert_eq!(read_stored("blob 30\0", b"test").unwrap_err(), Error::SizeMismatch);
    assert_eq!(read_stored("blob 4\0", b"tes").unwrap_err(), Error::SizeMismatch);
    assert_eq!(read_stored("blob 5\0", b"other").unwrap_err(), Error::HashMismatch);
    assert_eq!(read_stored("tree 4\0", b"test").unwrap_err(), Error::HashMismatch);
}

#[test]
fn golden_hash_of_the_empty_blob() {
    let object = Object::new(ObjectType::Blob, Vec::new()).unwrap();
    assert_eq!(object.header(), "blob 0\0");
    assert_eq!(object.hash().to_hex(), "E69DE29BB2D1D6434B8B29AE775AD8C2E48C5391");
    let direct = ObjectHash::from_bytes(b"blob 0\0");
    assert!(direct.same(&object.hash()));
}

#[test]
fn hash_covers_header_and_payload() {
    let object = Object::new(ObjectType::Blob, b"test".to_vec()).unwrap();
    assert_eq!(object.hash().to_hex(), "30D74D258442C7C65512EAFAB474568DD706C430");
    let same_bytes_as_tree = Object::new(ObjectType::Tree, b"test".to_vec()).unwrap();
    assert!(!same_bytes_as_tree.hash().same(&object.hash()));
}

#[test]
fn header_names_kind_and_length() {
    assert_eq!(header_of(ObjectType::Blob, 4), b"blob 4\0".to_vec());
    assert_eq!(header_of(ObjectType::Tree, 0), b"tree 0\0".to_vec());
    assert_eq!(header_of(ObjectType::Commit, 1234567), b"commit 1234567\0".to_vec());
    assert_eq!(header_of(ObjectType::Tag, 10), b"tag 10\0".to_vec());
    let object = Object::new(ObjectType::Commit, vec![7u8; 300]).unwrap();
    assert_eq!(object.header(), "commit 300\0");
    let mut expected = b"commit 300\0".to_vec();
    expected.extend_from_slice(&[7u8; 300]);
    assert_eq!(object.serialize(), expected);
}

#[test]
fn write_then_read_gives_kind_and_payload_back() {
    let kinds = [ObjectType::Blob, ObjectType::Tree, ObjectType::Commit, ObjectType::Tag];
    let payloads: [&[u8]; 4] = [b"", b"test", b"with\0null\0bytes", &[0xff, 0x00, 0x20, 0x80]];
    for kind in kinds.iter() {
        for payload in payloads.iter() {
            let mut tree = FileTree::new();
            let repo = new_repository(&mut tree);
            let object = Object::new(*kind, payload.to_vec()).unwrap();
            let hash = write_object(&object, &repo, &mut tree).unwrap();
            assert!(hash.same(&object.hash()));
            let back = read_object(&repo, &hash, &tree).unwrap();
            assert_eq!(back.object_type(), *kind);
            assert_eq!(back.data().as_slice(), *payload);
            assert!(back.hash().same(&hash));
        }
    }
}

#[test]
fn second_write_leaves_the_stored_file_alone() {
    let mut tree = FileTree::new();
    let repo = new_repository(&mut tree);
    let object = Object::new(ObjectType::Blob, b"test".to_vec()).unwrap();
    write_object(&object, &repo, &mut tree).unwrap();
    let path = object.file_path(&repo);
    let before = tree.read(&path).unwrap().clone();
    let count = tree.paths().len();
    assert_eq!(write_object(&object, &repo, &mut tree).unwrap_err(), Error::AlreadyExists);
    assert_eq!(tree.read(&path).unwrap(), &before);
    assert_eq!(tree.paths().len(), count);
}

#[test]
fn object_is_filed_under_its_hash() {
    let mut tree = FileTree::new();
    let repo = new_repository(&mut tree);
    let object = Object::new(ObjectType::Blob, Vec::new()).unwrap();
    let path = object.file_path(&repo);
    let expected = repo
        .gitdir()
        .join("objects")
        .join("E6")
        .join("9DE29BB2D1D6434B8B29AE775AD8C2E48C5391");
    assert!(path.same(&expected));
    write_object(&object, &repo, &mut tree).unwrap();
    assert!(tree.is_dir(&repo.gitdir().join("objects").join("E6")));
    assert!(tree.read(&expected).is_some());
}

#[test]
fn stored_form_is_the_compressed_serialization() {
    let object = Object::new(ObjectType::Blob, b"test".to_vec()).unwrap();
    let stored = object.encode().unwrap();
    assert_ne!(stored, object.serialize());
    let back = Object::decode(&stored).unwrap();
    assert_eq!(back.object_type(), ObjectType::Blob);
    assert_eq!(back.data(), &b"test".to_vec());
    let by_hand = Object::decode(&compressed(b"tag 3\0abc")).unwrap();
    assert_eq!(by_hand.object_type(), ObjectType::Tag);
    assert_eq!(by_hand.data(), &b"abc".to_vec());
    assert_eq!(Object::decode(b"plain").unwrap_err(), Error::DecompressionError);
}

#[test]
fn parse_splits_at_the_first_null_and_the_first_space() {
    let object = Object::parse(b"blob 5\0a\0b c").unwrap();
    assert_eq!(object.object_type(), ObjectType::Blob);
    assert_eq!(object.data(), &b"a\0b c".to_vec());
    assert_eq!(Object::parse(b"blob 1 \0a").unwrap_err(), Error::InvalidSize);
    assert_eq!(Object::parse(b" blob 1\0a").unwrap_err(), Error::InvalidKind);
    assert_eq!(Object::parse(b"").unwrap_err(), Error::MalformedHeader);
    assert_eq!(Object::parse(b"\0").unwrap_err(), Error::MalformedHeader);
    assert_eq!(Object::parse(b"blob +1\0a").unwrap().data(), &b"a".to_vec());
    assert_eq!(Object::parse(b"blob 001\0a").unwrap().data(), &b"a".to_vec());
    assert_eq!(
        Object::parse(b"blob 99999999999999999999999999\0a").unwrap_err(),
        Error::InvalidSize
    );
}

#[test]
fn kinds_by_name() {
    assert_eq!(ObjectType::from_name("blob").unwrap(), ObjectType::Blob);
    assert_eq!(ObjectType::from_name("tree").unwrap(), ObjectType::Tree);
    assert_eq!(ObjectType::from_name("commit").unwrap(), ObjectType::Commit);
    assert_eq!(ObjectType::from_name("tag").unwrap(), ObjectType::Tag);
    assert_eq!(ObjectType::from_name("Blob").unwrap_err(), Error::InvalidKind);
    assert_eq!(ObjectType::from_name("").unwrap_err(), Error::InvalidKind);
    assert_eq!(ObjectType::from_token(b"commit").unwrap(), ObjectType::Commit);
    assert_eq!(ObjectType::from_token(b"commi").unwrap_err(), Error::InvalidKind);
    assert_eq!(ObjectType::Tag.name(), "tag");
    assert_eq!(ObjectType::Tree.token_bytes(), b"tree".to_vec());
}

#[test]
fn decimal_text_and_back() {
    assert_eq!(decimal_text(0), b"0".to_vec());
    assert_eq!(decimal_text(9), b"9".to_vec());
    assert_eq!(decimal_text(10), b"10".to_vec());
    assert_eq!(decimal_text(4096), b"4096".to_vec());
    assert_eq!(read_size(b"4096"), Some(4096));
    assert_eq!(read_size(b"0"), Some(0));
    assert_eq!(read_size(b"+7"), Some(7));
    assert_eq!(read_size(b""), None);
    assert_eq!(read_size(b"+"), None);
    assert_eq!(read_size(b"4 "), None);
    assert_eq!(read_size(b"0x10"), None);
    assert_eq!(read_size(decimal_text(usize::MAX).as_slice()), Some(usize::MAX));
    let mut beyond = decimal_text(usize::MAX);
    beyond.push(b'0');
    assert_eq!(read_size(beyond.as_slice()), None);
}

#[test]
fn find_byte_gives_the_first_position() {
    assert_eq!(find_byte(b"a b c", b' '), 1);
    assert_eq!(find_byte(b"abc", b' '), 3);
    assert_eq!(find_byte(b"", 0), 0);
}

#[test]
fn stored_file_is_the_stored_form_of_the_object() {
    let mut tree = FileTree::new();
    let repo = new_repository(&mut tree);
    let object = Object::new(ObjectType::Commit, b"tree 0\n".to_vec()).unwrap();
    write_object(&object, &repo, &mut tree).unwrap();
    let stored = tree.read(&object.file_path(&repo)).unwrap();
    assert_eq!(stored, &object.encode().unwrap());
    assert_eq!(stored, &compressed(b"commit 7\0tree 0\n"));
}

#[test]
fn write_fails_where_a_file_stands_in_the_way() {
    let mut tree = FileTree::new();
    let repo = new_repository(&mut tree);
    let object = Object::new(ObjectType::Blob, b"test".to_vec()).unwrap();
    let dir = object.file_path(&repo).parent().unwrap();
    tree.create_new(&dir, b"in the way".to_vec()).unwrap();
    let count = tree.paths().len();
    assert_eq!(write_object(&object, &repo, &mut tree).unwrap_err(), Error::IOError);
    assert_eq!(tree.paths().len(), count);
}
