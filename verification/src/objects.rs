//! Typed objects and their stored form: a header `"<kind> <length>\0"`
//! followed by the payload, the whole compressed.

use crate::decimal::{
    decimal, decimal_text, is_digit, lemma_decimal_reads_back, lemma_parse_of_decimal, parse_size,
    read_size,
};
use crate::error::Error;
use crate::hash::{sha1_digest, ObjectHash};
use crate::text::{ascii_text, lemma_ascii_text, text_of};
use crate::zlib::{deflate, inflate, zlib_deflated, zlib_inflated};
pub use crate::store::{read_object, write_object};
use vstd::prelude::*;
use vstd::slice::{slice_subrange, slice_to_vec};
use vstd::string::StringExecFns;
use vstd::utf8::encode_utf8;

verus! {

/// The kind of an object.
#[derive(Clone, Copy, Debug, PartialEq, Eq, Structural)]
pub enum ObjectType {
    Blob,
    Tree,
    Commit,
    Tag,
}

impl ObjectType {
    /// The lower-case ASCII token that names the kind in a header.
    pub open spec fn token(self) -> Seq<u8> {
        match self {
            ObjectType::Blob => seq![98u8, 108u8, 111u8, 98u8],
            ObjectType::Tree => seq![116u8, 114u8, 101u8, 101u8],
            ObjectType::Commit => seq![99u8, 111u8, 109u8, 109u8, 105u8, 116u8],
            ObjectType::Tag => seq![116u8, 97u8, 103u8],
        }
    }

    /// The lower-case name of the kind.
    pub open spec fn name_text(self) -> Seq<char> {
        match self {
            ObjectType::Blob => "blob"@,
            ObjectType::Tree => "tree"@,
            ObjectType::Commit => "commit"@,
            ObjectType::Tag => "tag"@,
        }
    }

    /// The lower-case name of the kind.
    pub fn name(&self) -> (text: &'static str)
        ensures
            text@ == self.name_text(),
    {
        match self {
            ObjectType::Blob => "blob",
            ObjectType::Tree => "tree",
            ObjectType::Commit => "commit",
            ObjectType::Tag => "tag",
        }
    }

    /// The token that names the kind in a header.
    pub fn token_bytes(&self) -> (bytes: Vec<u8>)
        ensures
            bytes@ == self.token(),
    {
        let bytes = match self {
            ObjectType::Blob => vec![98u8, 108u8, 111u8, 98u8],
            ObjectType::Tree => vec![116u8, 114u8, 101u8, 101u8],
            ObjectType::Commit => vec![99u8, 111u8, 109u8, 109u8, 105u8, 116u8],
            ObjectType::Tag => vec![116u8, 97u8, 103u8],
        };
        assert(bytes@ =~= self.token());
        bytes
    }

    /// Reads a kind from its header token. The match is exact and
    /// case-sensitive; any other token is `InvalidKind`.
    pub fn from_token(token: &[u8]) -> (result: Result<ObjectType, Error>)
        ensures
            match result {
                Ok(kind) => kind_of_token(token@) == Some(kind),
                Err(e) => e == Error::InvalidKind && kind_of_token(token@) is None,
            },
    {
        if same_bytes(token, ObjectType::Blob.token_bytes().as_slice()) {
            Ok(ObjectType::Blob)
        } else if same_bytes(token, ObjectType::Tree.token_bytes().as_slice()) {
            Ok(ObjectType::Tree)
        } else if same_bytes(token, ObjectType::Commit.token_bytes().as_slice()) {
            Ok(ObjectType::Commit)
        } else if same_bytes(token, ObjectType::Tag.token_bytes().as_slice()) {
            Ok(ObjectType::Tag)
        } else {
            Err(Error::InvalidKind)
        }
    }

    /// Reads a kind from its name. The match is exact and case-sensitive; any
    /// other name is `InvalidKind`.
    pub fn from_name(name: &str) -> (result: Result<ObjectType, Error>)
        ensures
            match result {
                Ok(kind) => kind_of_name(name@) == Some(kind),
                Err(e) => e == Error::InvalidKind && kind_of_name(name@) is None,
            },
    {
        let name = String::from_str(name);
        if name == String::from_str("blob") {
            Ok(ObjectType::Blob)
        } else if name == String::from_str("tree") {
            Ok(ObjectType::Tree)
        } else if name == String::from_str("commit") {
            Ok(ObjectType::Commit)
        } else if name == String::from_str("tag") {
            Ok(ObjectType::Tag)
        } else {
            Err(Error::InvalidKind)
        }
    }
}

/// The kind that a header token names, if any.
pub open spec fn kind_of_token(token: Seq<u8>) -> Option<ObjectType> {
    if token == ObjectType::Blob.token() {
        Some(ObjectType::Blob)
    } else if token == ObjectType::Tree.token() {
        Some(ObjectType::Tree)
    } else if token == ObjectType::Commit.token() {
        Some(ObjectType::Commit)
    } else if token == ObjectType::Tag.token() {
        Some(ObjectType::Tag)
    } else {
        None
    }
}

/// The kind that a name stands for, if any.
pub open spec fn kind_of_name(name: Seq<char>) -> Option<ObjectType> {
    if name == ObjectType::Blob.name_text() {
        Some(ObjectType::Blob)
    } else if name == ObjectType::Tree.name_text() {
        Some(ObjectType::Tree)
    } else if name == ObjectType::Commit.name_text() {
        Some(ObjectType::Commit)
    } else if name == ObjectType::Tag.name_text() {
        Some(ObjectType::Tag)
    } else {
        None
    }
}

/// Each kind is read back from its own token.
pub proof fn lemma_kind_of_own_token(kind: ObjectType)
    ensures
        kind_of_token(kind.token()) == Some(kind),
        forall|i: int| 0 <= i < kind.token().len() ==> 97 <= #[trigger] kind.token()[i] <= 116,
{
    assert(ObjectType::Blob.token()[0] == 98);
    assert(ObjectType::Tree.token()[0] == 116);
    assert(ObjectType::Commit.token()[0] == 99);
    assert(ObjectType::Tag.token()[0] == 116);
    assert(ObjectType::Blob.token().len() == 4);
    assert(ObjectType::Tree.token().len() == 4);
    assert(ObjectType::Commit.token().len() == 6);
    assert(ObjectType::Tag.token().len() == 3);
}

/// Whether two byte slices hold the same bytes.
pub fn same_bytes(a: &[u8], b: &[u8]) -> (equal: bool)
    ensures
        equal == (a@ == b@),
{
    if a.len() != b.len() {
        return false;
    }
    let mut i: usize = 0;
    while i < a.len()
        invariant
            i <= a.len(),
            a.len() == b.len(),
            forall|k: int| 0 <= k < i ==> a@[k] == b@[k],
        decreases a.len() - i,
    {
        if a[i] != b[i] {
            return false;
        }
        i += 1;
    }
    assert(a@ =~= b@);
    true
}

/// The position of the first `b` in `s`, or the length of `s` where it holds
/// none.
pub open spec fn first_index(s: Seq<u8>, b: u8) -> int
    decreases s.len(),
{
    if s.len() == 0 {
        0
    } else if s[0] == b {
        0
    } else {
        1 + first_index(s.drop_first(), b)
    }
}

/// `first_index` lies within the sequence, no `b` stands before it, and one
/// stands at it unless it is the length.
pub proof fn lemma_first_index(s: Seq<u8>, b: u8)
    ensures
        0 <= first_index(s, b) <= s.len(),
        forall|k: int| 0 <= k < first_index(s, b) ==> s[k] != b,
        first_index(s, b) < s.len() ==> s[first_index(s, b)] == b,
    decreases s.len(),
{
    if s.len() > 0 && s[0] != b {
        let rest = s.drop_first();
        lemma_first_index(rest, b);
        assert forall|k: int| 0 <= k < first_index(s, b) implies s[k] != b by {
            if k > 0 {
                assert(rest[k - 1] == s[k]);
            }
        }
    }
}

/// A position before which no `b` stands, and which holds one or is the
/// length, is `first_index`.
pub proof fn lemma_first_index_is(s: Seq<u8>, b: u8, p: int)
    requires
        0 <= p <= s.len(),
        forall|k: int| 0 <= k < p ==> s[k] != b,
        p < s.len() ==> s[p] == b,
    ensures
        first_index(s, b) == p,
{
    lemma_first_index(s, b);
}

/// The position of the first `b` in `bytes`, or their length.
pub fn find_byte(bytes: &[u8], b: u8) -> (position: usize)
    ensures
        position == first_index(bytes@, b),
        position <= bytes@.len(),
{
    let mut i: usize = 0;
    while i < bytes.len() && bytes[i] != b
        invariant
            i <= bytes.len(),
            forall|k: int| 0 <= k < i ==> bytes@[k] != b,
        decreases bytes.len() - i,
    {
        i += 1;
    }
    proof {
        lemma_first_index_is(bytes@, b, i as int);
    }
    i
}

/// The header of an object of kind `kind` with a payload of `len` bytes: the
/// kind's token, a space, the length in decimal and a null byte.
pub open spec fn header_bytes(kind: ObjectType, len: nat) -> Seq<u8> {
    kind.token() + seq![32u8] + decimal(len) + seq![0u8]
}

/// The canonical serialization of an object: its header, then its payload.
pub open spec fn object_bytes(kind: ObjectType, data: Seq<u8>) -> Seq<u8> {
    header_bytes(kind, data.len()) + data
}

/// The name of an object: the digest of its canonical serialization.
pub open spec fn object_digest(kind: ObjectType, data: Seq<u8>) -> Seq<u8> {
    sha1_digest(object_bytes(kind, data))
}

/// What a serialization holds: the kind and payload, or the first fault found
/// in it. The header ends at the first null byte and the kind at the header's
/// first space.
pub open spec fn parse_object(raw: Seq<u8>) -> Result<(ObjectType, Seq<u8>), Error> {
    let nul = first_index(raw, 0);
    let header = raw.subrange(0, nul);
    let payload = raw.subrange(nul + 1, raw.len() as int);
    let space = first_index(header, 32);
    let kind = kind_of_token(header.subrange(0, space));
    let size = parse_size(header.subrange(space + 1, header.len() as int));
    if nul >= raw.len() {
        Err(Error::MalformedHeader)
    } else if space >= header.len() {
        Err(Error::MalformedHeader)
    } else if kind is None {
        Err(Error::InvalidKind)
    } else if size is None {
        Err(Error::InvalidSize)
    } else if size.unwrap() != payload.len() {
        Err(Error::SizeMismatch)
    } else {
        Ok((kind.unwrap(), payload))
    }
}

/// The stored form of an object: what the compressor makes of its canonical
/// serialization, or nothing where it reports an error.
pub open spec fn encode_object(kind: ObjectType, data: Seq<u8>) -> Option<Seq<u8>> {
    zlib_deflated(object_bytes(kind, data))
}

/// What a stored, compressed object holds.
pub open spec fn decode_object(stored: Seq<u8>) -> Result<(ObjectType, Seq<u8>), Error> {
    match zlib_inflated(stored) {
        None => Err(Error::DecompressionError),
        Some(raw) => parse_object(raw),
    }
}

/// Every byte of a header is ASCII.
pub proof fn lemma_header_is_ascii(kind: ObjectType, size: nat)
    ensures
        forall|i: int|
            0 <= i < header_bytes(kind, size).len() ==> #[trigger] header_bytes(kind, size)[i]
                < 128,
{
    let token = kind.token();
    let digits = decimal(size);
    let header = header_bytes(kind, size);
    lemma_kind_of_own_token(kind);
    lemma_decimal_reads_back(size);
    assert forall|i: int| 0 <= i < header.len() implies #[trigger] header[i] < 128 by {
        if i < token.len() {
            assert(header[i] == token[i]);
        } else if token.len() < i <= token.len() + digits.len() {
            assert(header[i] == digits[i - token.len() - 1]);
            assert(is_digit(digits[i - token.len() - 1]));
        }
    }
}

/// How a header of kind `kind` and size `size` before any payload is read:
/// the split falls after the header, and the kind and the size are those that
/// were written.
pub proof fn lemma_header_is_read(kind: ObjectType, size: nat, data: Seq<u8>)
    requires
        size <= usize::MAX,
    ensures
        parse_object(header_bytes(kind, size) + data) == (if size == data.len() {
            Ok::<(ObjectType, Seq<u8>), Error>((kind, data))
        } else {
            Err::<(ObjectType, Seq<u8>), Error>(Error::SizeMismatch)
        }),
{
    let token = kind.token();
    let digits = decimal(size);
    let head = token + seq![32u8] + digits;
    let raw = header_bytes(kind, size) + data;
    lemma_kind_of_own_token(kind);
    lemma_decimal_reads_back(size);
    lemma_parse_of_decimal(size);
    assert(raw =~= head + seq![0u8] + data);
    assert forall|k: int| 0 <= k < head.len() implies head[k] != 0 by {
        if k < token.len() {
            assert(head[k] == token[k]);
        } else if k > token.len() {
            assert(head[k] == digits[k - token.len() - 1]);
            assert(is_digit(digits[k - token.len() - 1]));
        }
    }
    assert forall|k: int| 0 <= k < head.len() implies raw[k] != 0 by {
        assert(raw[k] == head[k]);
    }
    lemma_first_index_is(raw, 0, head.len() as int);
    assert(raw.subrange(0, head.len() as int) =~= head);
    assert(raw.subrange(head.len() as int + 1, raw.len() as int) =~= data);
    assert forall|k: int| 0 <= k < token.len() implies head[k] != 32 by {
        assert(head[k] == token[k]);
    }
    lemma_first_index_is(head, 32, token.len() as int);
    assert(head.subrange(0, token.len() as int) =~= token);
    assert(head.subrange(token.len() as int + 1, head.len() as int) =~= digits);
}

/// Parsing the canonical serialization of an object gives back its kind and
/// its payload, whatever bytes the payload holds.
pub proof fn lemma_parse_of_object_bytes(kind: ObjectType, data: Seq<u8>)
    requires
        data.len() <= usize::MAX,
    ensures
        parse_object(object_bytes(kind, data)) == Ok::<(ObjectType, Seq<u8>), Error>((kind, data)),
{
    lemma_header_is_read(kind, data.len(), data);
}

/// A serialization without a null byte has a malformed header.
pub proof fn lemma_no_null_is_malformed(raw: Seq<u8>)
    requires
        forall|i: int| 0 <= i < raw.len() ==> raw[i] != 0,
    ensures
        parse_object(raw) == Err::<(ObjectType, Seq<u8>), Error>(Error::MalformedHeader),
{
    lemma_first_index_is(raw, 0, raw.len() as int);
}

/// A serialization whose header declares a size other than the length of the
/// payload is a size mismatch, whatever the kind and the payload.
pub proof fn lemma_wrong_size_is_mismatch(kind: ObjectType, size: nat, data: Seq<u8>)
    requires
        size <= usize::MAX,
        size != data.len(),
    ensures
        parse_object(header_bytes(kind, size) + data) == Err::<(ObjectType, Seq<u8>), Error>(
            Error::SizeMismatch,
        ),
{
    lemma_header_is_read(kind, size, data);
}

/// What an object is: its kind and its payload. Its hash follows from them.
pub struct ObjectView {
    pub kind: ObjectType,
    pub data: Seq<u8>,
}

/// A typed payload together with its name. Once made it does not change.
#[derive(Debug)]
pub struct Object {
    object_type: ObjectType,
    data: Vec<u8>,
    hash: ObjectHash,
}

impl View for Object {
    type V = ObjectView;

    closed spec fn view(&self) -> ObjectView {
        ObjectView { kind: self.object_type, data: self.data@ }
    }
}

impl Object {
    #[verifier::type_invariant]
    spec fn well_named(&self) -> bool {
        self.hash@ == object_digest(self.object_type, self.data@)
    }

    /// Makes the object of kind `object_type` with payload `data`, named by
    /// the digest of its canonical serialization. Never fails.
    pub fn new(object_type: ObjectType, data: Vec<u8>) -> (result: Result<Object, Error>)
        ensures
            result is Ok,
            result.unwrap()@ == (ObjectView { kind: object_type, data: data@ }),
    {
        let mut bytes = header_of(object_type, data.len());
        bytes.extend_from_slice(data.as_slice());
        assert(bytes@ == object_bytes(object_type, data@));
        let hash = ObjectHash::from_bytes(bytes.as_slice());
        Ok(Object { object_type, data, hash })
    }

    /// The kind of the object.
    pub fn object_type(&self) -> (kind: ObjectType)
        ensures
            kind == self@.kind,
    {
        self.object_type
    }

    /// The payload of the object.
    pub fn data(&self) -> (data: &Vec<u8>)
        ensures
            data@ == self@.data,
    {
        &self.data
    }

    /// The name of the object: the digest of its header and payload.
    pub fn hash(&self) -> (hash: ObjectHash)
        ensures
            hash@ == object_digest(self@.kind, self@.data),
    {
        proof {
            use_type_invariant(self);
        }
        self.hash
    }

    /// The header of the object, `"<kind> <length>\0"`: the text whose bytes
    /// are, one for one, those that the name of the object was computed from.
    pub fn header(&self) -> (text: String)
        ensures
            text@ == ascii_text(header_bytes(self@.kind, self@.data.len())),
            encode_utf8(text@) == header_bytes(self@.kind, self@.data.len()),
    {
        let bytes = header_of(self.object_type, self.data.len());
        proof {
            lemma_header_is_ascii(self.object_type, self.data.len() as nat);
        }
        match text_of(bytes.as_slice()) {
            Some(text) => {
                proof {
                    lemma_ascii_text(bytes@, text@);
                }
                text
            },
            None => {
                proof {
                    lemma_ascii_text(bytes@, Seq::empty());
                }
                String::new()
            },
        }
    }

    /// The canonical serialization of the object: header, then payload.
    pub fn serialize(&self) -> (bytes: Vec<u8>)
        ensures
            bytes@ == object_bytes(self@.kind, self@.data),
    {
        let mut bytes = header_of(self.object_type, self.data.len());
        bytes.extend_from_slice(self.data.as_slice());
        bytes
    }

    /// Reads an object from its serialization. The header ends at the first
    /// null byte; a serialization without one, or whose header has no space,
    /// is `MalformedHeader`. Then the kind is checked (`InvalidKind`), then
    /// the size (`InvalidSize`), then the size against the payload
    /// (`SizeMismatch`).
    pub fn parse(raw: &[u8]) -> (result: Result<Object, Error>)
        ensures
            match result {
                Ok(object) => parse_object(raw@) == Ok::<(ObjectType, Seq<u8>), Error>(
                    (object@.kind, object@.data),
                ),
                Err(e) => parse_object(raw@) == Err::<(ObjectType, Seq<u8>), Error>(e),
            },
    {
        let nul = find_byte(raw, 0);
        if nul >= raw.len() {
            return Err(Error::MalformedHeader);
        }
        let header = slice_subrange(raw, 0, nul);
        let space = find_byte(header, 32);
        if space >= header.len() {
            return Err(Error::MalformedHeader);
        }
        let kind = match ObjectType::from_token(slice_subrange(header, 0, space)) {
            Ok(kind) => kind,
            Err(e) => {
                return Err(e);
            },
        };
        let size = match read_size(slice_subrange(header, space + 1, header.len())) {
            Some(size) => size,
            None => {
                return Err(Error::InvalidSize);
            },
        };
        let payload = slice_to_vec(slice_subrange(raw, nul + 1, raw.len()));
        if payload.len() != size {
            return Err(Error::SizeMismatch);
        }
        Object::new(kind, payload)
    }

    /// The stored form of the object: what the compressor makes of its
    /// canonical serialization. `None` where, and only where, the compressor
    /// reports an error. A stored form decodes to the kind and payload of the
    /// object.
    pub fn encode(&self) -> (stored: Option<Vec<u8>>)
        ensures
            match stored {
                Some(bytes) => encode_object(self@.kind, self@.data) == Some(bytes@),
                None => encode_object(self@.kind, self@.data) is None,
            },
            stored is Some ==> zlib_inflated(stored.unwrap()@) == Some(
                object_bytes(self@.kind, self@.data),
            ),
            stored is Some ==> decode_object(stored.unwrap()@) == Ok::<(ObjectType, Seq<u8>), Error>(
                (self@.kind, self@.data),
            ),
    {
        let bytes = self.serialize();
        let len = self.data.len();
        proof {
            assert(self@.data.len() == len);
            lemma_parse_of_object_bytes(self@.kind, self@.data);
        }
        deflate(bytes.as_slice())
    }

    /// Reads an object from its stored form: decompresses it
    /// (`DecompressionError` where that fails), then parses the result.
    pub fn decode(stored: &[u8]) -> (result: Result<Object, Error>)
        ensures
            match result {
                Ok(object) => decode_object(stored@) == Ok::<(ObjectType, Seq<u8>), Error>(
                    (object@.kind, object@.data),
                ),
                Err(e) => decode_object(stored@) == Err::<(ObjectType, Seq<u8>), Error>(e),
            },
    {
        match inflate(stored) {
            None => Err(Error::DecompressionError),
            Some(raw) => Object::parse(raw.as_slice()),
        }
    }
}

/// Writes the header of an object of kind `kind` with `len` bytes of payload.
pub fn header_of(kind: ObjectType, len: usize) -> (bytes: Vec<u8>)
    ensures
        bytes@ == header_bytes(kind, len as nat),
{
    let mut bytes = kind.token_bytes();
    bytes.push(32u8);
    let digits = decimal_text(len);
    bytes.extend_from_slice(digits.as_slice());
    bytes.push(0u8);
    bytes
}

} // verus!
