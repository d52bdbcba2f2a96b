//! Object names: 20-byte SHA-1 digests and their hexadecimal form.

use crate::error::Error;
use sha1::{Digest, Sha1};
use vstd::prelude::*;
use vstd::string::{StrSliceExecFns, StringExecFns};

verus! {

/// The SHA-1 digest of a byte sequence, as the `sha1` crate computes it.
pub uninterp spec fn sha1_digest(data: Seq<u8>) -> Seq<u8>;

/// Runs `sha1::Sha1` over `data` (`Digest::new`, `update`, `finalize`) and
/// hands the 20 output bytes back as an array. The digest is a function of the
/// input alone; nothing else is claimed of it.
#[verifier::external_body]
fn sha1_of(data: &[u8]) -> (out: [u8; 20])
    ensures
        out@ == sha1_digest(data@),
{
    let mut hasher = Sha1::new();
    hasher.update(data);
    hasher.finalize().into()
}

/// The upper-case hexadecimal digit for a value below 16.
pub open spec fn hex_digit(n: int) -> char {
    if n == 0 {
        '0'
    } else if n == 1 {
        '1'
    } else if n == 2 {
        '2'
    } else if n == 3 {
        '3'
    } else if n == 4 {
        '4'
    } else if n == 5 {
        '5'
    } else if n == 6 {
        '6'
    } else if n == 7 {
        '7'
    } else if n == 8 {
        '8'
    } else if n == 9 {
        '9'
    } else if n == 10 {
        'A'
    } else if n == 11 {
        'B'
    } else if n == 12 {
        'C'
    } else if n == 13 {
        'D'
    } else if n == 14 {
        'E'
    } else {
        'F'
    }
}

/// The value of a hexadecimal digit of either case, `None` for any other
/// character.
pub open spec fn hex_value(c: char) -> Option<int> {
    if c == '0' {
        Some(0)
    } else if c == '1' {
        Some(1)
    } else if c == '2' {
        Some(2)
    } else if c == '3' {
        Some(3)
    } else if c == '4' {
        Some(4)
    } else if c == '5' {
        Some(5)
    } else if c == '6' {
        Some(6)
    } else if c == '7' {
        Some(7)
    } else if c == '8' {
        Some(8)
    } else if c == '9' {
        Some(9)
    } else if c == 'a' || c == 'A' {
        Some(10)
    } else if c == 'b' || c == 'B' {
        Some(11)
    } else if c == 'c' || c == 'C' {
        Some(12)
    } else if c == 'd' || c == 'D' {
        Some(13)
    } else if c == 'e' || c == 'E' {
        Some(14)
    } else if c == 'f' || c == 'F' {
        Some(15)
    } else {
        None
    }
}

/// Every character of `s` is a hexadecimal digit.
pub open spec fn is_hex_text(s: Seq<char>) -> bool {
    forall|i: int| 0 <= i < s.len() ==> (#[trigger] hex_value(s[i])) is Some
}

/// Two upper-case digits per byte, the high half first.
pub open spec fn hex_encode(bytes: Seq<u8>) -> Seq<char> {
    Seq::new(
        2 * bytes.len(),
        |i: int|
            if i % 2 == 0 {
                hex_digit(bytes[i / 2] as int / 16)
            } else {
                hex_digit(bytes[i / 2] as int % 16)
            },
    )
}

/// The bytes that the digit pairs of `s` stand for.
pub open spec fn hex_decode(s: Seq<char>) -> Seq<u8>
    recommends
        is_hex_text(s),
{
    Seq::new(
        (s.len() / 2) as nat,
        |i: int| (16 * hex_value(s[2 * i]).unwrap() + hex_value(s[2 * i + 1]).unwrap()) as u8,
    )
}

/// What a text names as a hash: its 20 bytes where it is 40 hexadecimal
/// digits, nothing otherwise.
pub open spec fn parse_hex(s: Seq<char>) -> Option<Seq<u8>> {
    if s.len() == 40 && is_hex_text(s) {
        Some(hex_decode(s))
    } else {
        None
    }
}

/// Decoding undoes encoding, for every byte sequence.
pub proof fn lemma_hex_round_trip(bytes: Seq<u8>)
    ensures
        hex_encode(bytes).len() == 2 * bytes.len(),
        is_hex_text(hex_encode(bytes)),
        hex_decode(hex_encode(bytes)) == bytes,
{
    let text = hex_encode(bytes);
    assert forall|i: int| 0 <= i < text.len() implies (#[trigger] hex_value(text[i])) is Some by {
        let b = bytes[i / 2] as int;
        assert(0 <= b / 16 < 16 && 0 <= b % 16 < 16);
    }
    assert forall|i: int| 0 <= i < bytes.len() implies hex_decode(text)[i] == bytes[i] by {
        let b = bytes[i] as int;
        assert((2 * i) / 2 == i && (2 * i) % 2 == 0);
        assert((2 * i + 1) / 2 == i && (2 * i + 1) % 2 == 1);
        assert(0 <= b / 16 < 16 && 0 <= b % 16 < 16);
        assert(hex_value(hex_digit(b / 16)) == Some(b / 16));
        assert(hex_value(hex_digit(b % 16)) == Some(b % 16));
        assert(16 * (b / 16) + b % 16 == b);
    }
    assert(hex_decode(text) =~= bytes);
}

/// The one-character text of an upper-case hexadecimal digit.
fn hex_digit_str(n: u8) -> (text: &'static str)
    requires
        n < 16,
    ensures
        text@ == seq![hex_digit(n as int)],
{
    proof {
        reveal_strlit("0");
        reveal_strlit("1");
        reveal_strlit("2");
        reveal_strlit("3");
        reveal_strlit("4");
        reveal_strlit("5");
        reveal_strlit("6");
        reveal_strlit("7");
        reveal_strlit("8");
        reveal_strlit("9");
        reveal_strlit("A");
        reveal_strlit("B");
        reveal_strlit("C");
        reveal_strlit("D");
        reveal_strlit("E");
        reveal_strlit("F");
    }
    let text = if n == 0 {
        "0"
    } else if n == 1 {
        "1"
    } else if n == 2 {
        "2"
    } else if n == 3 {
        "3"
    } else if n == 4 {
        "4"
    } else if n == 5 {
        "5"
    } else if n == 6 {
        "6"
    } else if n == 7 {
        "7"
    } else if n == 8 {
        "8"
    } else if n == 9 {
        "9"
    } else if n == 10 {
        "A"
    } else if n == 11 {
        "B"
    } else if n == 12 {
        "C"
    } else if n == 13 {
        "D"
    } else if n == 14 {
        "E"
    } else {
        "F"
    };
    assert(text@ =~= seq![hex_digit(n as int)]);
    text
}

/// The value of a hexadecimal digit of either case.
fn hex_nibble(c: char) -> (value: Option<u8>)
    ensures
        match value {
            Some(v) => hex_value(c) == Some(v as int) && v < 16,
            None => hex_value(c) is None,
        },
{
    if c == '0' {
        Some(0)
    } else if c == '1' {
        Some(1)
    } else if c == '2' {
        Some(2)
    } else if c == '3' {
        Some(3)
    } else if c == '4' {
        Some(4)
    } else if c == '5' {
        Some(5)
    } else if c == '6' {
        Some(6)
    } else if c == '7' {
        Some(7)
    } else if c == '8' {
        Some(8)
    } else if c == '9' {
        Some(9)
    } else if c == 'a' || c == 'A' {
        Some(10)
    } else if c == 'b' || c == 'B' {
        Some(11)
    } else if c == 'c' || c == 'C' {
        Some(12)
    } else if c == 'd' || c == 'D' {
        Some(13)
    } else if c == 'e' || c == 'E' {
        Some(14)
    } else if c == 'f' || c == 'F' {
        Some(15)
    } else {
        None
    }
}

/// The upper-case hexadecimal text of a byte vector.
pub fn hex_text(bytes: &[u8]) -> (text: String)
    ensures
        text@ == hex_encode(bytes@),
{
    let mut text = String::new();
    let mut i: usize = 0;
    while i < bytes.len()
        invariant
            i <= bytes.len(),
            text@ == hex_encode(bytes@.subrange(0, i as int)),
        decreases bytes.len() - i,
    {
        let b: u8 = bytes[i];
        let ghost before = text@;
        text.append(hex_digit_str(b / 16));
        text.append(hex_digit_str(b % 16));
        proof {
            let done = bytes@.subrange(0, i as int);
            let next = bytes@.subrange(0, i as int + 1);
            assert(text@ == before + seq![hex_digit(b as int / 16)] + seq![hex_digit(b as int % 16)]);
            assert forall|k: int| 0 <= k < 2 * (i as int) + 2 implies text@[k] == hex_encode(
                next,
            )[k] by {
                if k < 2 * (i as int) {
                    assert(before[k] == hex_encode(done)[k]);
                    assert(done[k / 2] == next[k / 2]);
                } else {
                    assert(k / 2 == i as int);
                    assert(next[k / 2] == b);
                }
            }
            assert(text@ =~= hex_encode(next));
        }
        i += 1;
    }
    assert(bytes@.subrange(0, i as int) =~= bytes@);
    text
}

/// The name of an object: a 20-byte digest.
#[derive(Clone, Copy, Debug)]
pub struct ObjectHash {
    bytes: [u8; 20],
}

impl View for ObjectHash {
    type V = Seq<u8>;

    closed spec fn view(&self) -> Seq<u8> {
        self.bytes@
    }
}

impl ObjectHash {
    /// A hash is always exactly 20 bytes long.
    pub proof fn lemma_len(self)
        ensures
            self@.len() == 20,
    {
    }

    /// The hash with the given bytes.
    pub fn from_raw(bytes: [u8; 20]) -> (hash: ObjectHash)
        ensures
            hash@ == bytes@,
    {
        ObjectHash { bytes }
    }

    /// The 20 bytes of the hash.
    pub fn as_bytes(&self) -> (bytes: &[u8; 20])
        ensures
            bytes@ == self@,
    {
        &self.bytes
    }

    /// The SHA-1 digest of `data`. Succeeds for input of any length.
    pub fn from_bytes(data: &[u8]) -> (hash: ObjectHash)
        ensures
            hash@ == sha1_digest(data@),
            hash@.len() == 20,
    {
        ObjectHash { bytes: sha1_of(data) }
    }

    /// Reads a hash from its hexadecimal form: exactly 40 digits of either
    /// case. Anything else is `InvalidHash`.
    pub fn from_hex(hex: &str) -> (result: Result<ObjectHash, Error>)
        ensures
            match result {
                Ok(hash) => parse_hex(hex@) == Some(hash@),
                Err(e) => e == Error::InvalidHash && parse_hex(hex@) is None,
            },
    {
        if hex.unicode_len() != 40 {
            return Err(Error::InvalidHash);
        }
        let mut bytes = [0u8;20];
        let mut i: usize = 0;
        while i < 20
            invariant
                i <= 20,
                hex@.len() == 40,
                forall|k: int| 0 <= k < 2 * i ==> (#[trigger] hex_value(hex@[k])) is Some,
                forall|k: int| 0 <= k < i ==> (#[trigger] bytes@[k]) == hex_decode(hex@)[k],
            decreases 20 - i,
        {
            let high = hex_nibble(hex.get_char(2 * i));
            let low = hex_nibble(hex.get_char(2 * i + 1));
            match (high, low) {
                (Some(h), Some(l)) => {
                    bytes[i] = h * 16 + l;
                },
                _ => {
                    assert(!is_hex_text(hex@)) by {
                        if is_hex_text(hex@) {
                            assert(hex_value(hex@[2 * i]) is Some);
                            assert(hex_value(hex@[2 * i + 1]) is Some);
                        }
                    }
                    return Err(Error::InvalidHash);
                },
            }
            i += 1;
        }
        assert(bytes@ =~= hex_decode(hex@));
        Ok(ObjectHash { bytes })
    }

    /// The hash as 40 upper-case hexadecimal digits.
    pub fn to_hex(&self) -> (text: String)
        ensures
            text@ == hex_encode(self@),
            text@.len() == 40,
            parse_hex(text@) == Some(self@),
    {
        proof {
            lemma_hex_round_trip(self@);
        }
        hex_text(self.bytes.as_slice())
    }

    /// The two names under which an object is filed: the first two digits of
    /// the hexadecimal form name the directory, the other 38 the file.
    pub fn as_path_parts(&self) -> (parts: (String, String))
        ensures
            parts.0@ == hex_encode(self@).subrange(0, 2),
            parts.1@ == hex_encode(self@).subrange(2, 40),
            parts.0@ + parts.1@ == hex_encode(self@),
    {
        let text = self.to_hex();
        let dir = String::from_str(text.as_str().substring_char(0, 2));
        let file = String::from_str(text.as_str().substring_char(2, 40));
        assert(dir@ + file@ =~= text@);
        (dir, file)
    }

    /// Whether two hashes hold the same bytes.
    pub fn same(&self, other: &ObjectHash) -> (equal: bool)
        ensures
            equal == (self@ == other@),
    {
        let mut i: usize = 0;
        while i < 20
            invariant
                i <= 20,
                forall|k: int| 0 <= k < i ==> self.bytes@[k] == other.bytes@[k],
            decreases 20 - i,
        {
            if self.bytes[i] != other.bytes[i] {
                return false;
            }
            i += 1;
        }
        assert(self.bytes@ =~= other.bytes@);
        true
    }
}

/// Reading the hexadecimal form of a hash gives the hash back.
pub proof fn lemma_from_hex_of_to_hex(hash: ObjectHash)
    ensures
        parse_hex(hex_encode(hash@)) == Some(hash@),
{
    hash.lemma_len();
    lemma_hex_round_trip(hash@);
}

} // verus!
