use legit::hash::{hex_text, ObjectHash};
use legit::Error;

#[test]
fn test_git_hash_from_str() {
    let hash_str = "1234567890abcdef1234";
    let hash = ObjectHash::from_bytes(hash_str.as_bytes());
    assert_eq!(hash.as_bytes().len(), 20);
}

#[test]
fn test_git_hash_as_path_parts() {
    let hash_str = "1234567890abcdef1234";
    let hash = ObjectHash::from_bytes(hash_str.as_bytes());
    let (dir, file) = hash.as_path_parts();
    assert_eq!(dir.len(), 2);
    assert_eq!(file.len(), 38);
}

#[test]
fn sha1_of_known_inputs() {
    let empty = ObjectHash::from_bytes(b"");
    assert_eq!(empty.to_hex(), "DA39A3EE5E6B4B0D3255BFEF95601890AFD80709");
    let hello = ObjectHash::from_bytes(b"hello world");
    assert_eq!(hello.to_hex(), "2AAE6C35C94FCFB415DBE95F408B9CE91EE846ED");
    assert!(!empty.same(&hello));
}

#[test]
fn hex_round_trip_of_a_digest() {
    let hash = ObjectHash::from_bytes(b"some bytes");
    let again = ObjectHash::from_hex(&hash.to_hex()).unwrap();
    assert!(again.same(&hash));
    assert_eq!(again.as_bytes(), hash.as_bytes());
}

#[test]
fn to_hex_is_forty_upper_case_digits() {
    let mut raw = [0u8; 20];
    for (i, byte) in raw.iter_mut().enumerate() {
        *byte = (i as u8) * 13 + 7;
    }
    raw[0] = 0x0a;
    raw[19] = 0xff;
    let hash = ObjectHash::from_raw(raw);
    let text = hash.to_hex();
    assert_eq!(text.len(), 40);
    assert!(text.starts_with("0A"));
    assert!(text.ends_with("FF"));
    assert!(text.chars().all(|c| c.is_ascii_digit() || ('A'..='F').contains(&c)));
}

#[test]
fn from_hex_accepts_both_cases() {
    let lower = ObjectHash::from_hex("e69de29bb2d1d6434b8b29ae775ad8c2e48c5391").unwrap();
    let upper = ObjectHash::from_hex("E69DE29BB2D1D6434B8B29AE775AD8C2E48C5391").unwrap();
    assert!(lower.same(&upper));
    assert_eq!(lower.as_bytes()[0], 0xe6);
    assert_eq!(lower.as_bytes()[1], 0x9d);
    assert_eq!(lower.as_bytes()[19], 0x91);
}

#[test]
fn from_hex_rejects_wrong_length() {
    assert_eq!(ObjectHash::from_hex("").unwrap_err(), Error::InvalidHash);
    assert_eq!(ObjectHash::from_hex("abc").unwrap_err(), Error::InvalidHash);
    let short = "e69de29bb2d1d6434b8b29ae775ad8c2e48c539";
    assert_eq!(ObjectHash::from_hex(short).unwrap_err(), Error::InvalidHash);
    let long = "e69de29bb2d1d6434b8b29ae775ad8c2e48c53911";
    assert_eq!(ObjectHash::from_hex(long).unwrap_err(), Error::InvalidHash);
}

#[test]
fn from_hex_rejects_other_characters() {
    let with_g = "g69de29bb2d1d6434b8b29ae775ad8c2e48c5391";
    assert_eq!(ObjectHash::from_hex(with_g).unwrap_err(), Error::InvalidHash);
    let with_plus = "+69de29bb2d1d6434b8b29ae775ad8c2e48c5391";
    assert_eq!(ObjectHash::from_hex(with_plus).unwrap_err(), Error::InvalidHash);
    let with_space = "e69de29bb2d1d6434b8b 9ae775ad8c2e48c5391";
    assert_eq!(ObjectHash::from_hex(with_space).unwrap_err(), Error::InvalidHash);
    let not_ascii = "é69de29bb2d1d6434b8b29ae775ad8c2e48c5391";
    assert_eq!(ObjectHash::from_hex(not_ascii).unwrap_err(), Error::InvalidHash);
}

#[test]
fn path_parts_split_the_hex_form() {
    let hash = ObjectHash::from_hex("e69de29bb2d1d6434b8b29ae775ad8c2e48c5391").unwrap();
    let (dir, file) = hash.as_path_parts();
    assert_eq!(dir, "E6");
    assert_eq!(file, "9DE29BB2D1D6434B8B29AE775AD8C2E48C5391");
    assert_eq!(format!("{}{}", dir, file), hash.to_hex());
}

#[test]
fn hex_text_of_any_bytes() {
    assert_eq!(hex_text(&[]), "");
    assert_eq!(hex_text(&[0x00, 0x0f, 0xf0, 0xab]), "000FF0AB");
}
