use vstd::prelude::*;
use vstd::string::StringSliceAdditionalSpecFns;
use vstd::utf8::*;

use crate::compression::{zlib_compress, zlib_compressed, zlib_decompress, zlib_decompressed};
use crate::crypto::{
    hex_lower, id_from_digest, is_lower_hex, lemma_hex_lower_shape, sha1_digest, sha1_of,
};
use crate::error::{ErrorView, GitError};
use crate::text::{
    decimal, digits_value, find_byte, is_canonical_decimal, lemma_canonical_unique, first_index, is_digit, is_first_index, lemma_ascii_valid_utf8,
    lemma_decimal_digits, lemma_first_index_none, lemma_first_index_unique,
    lemma_parse_decimal_of_decimal, parse_decimal, parse_usize, push_decimal, utf8_is_valid,
};

verus! {

broadcast use vstd::utf8::group_utf8_lib;

/// The four kinds of Git object.
#[derive(Debug, Clone, Copy, PartialEq, Eq, Structural)]
pub enum ObjectType {
    Blob,
    Tree,
    Commit,
    Tag,
}

/// The name of a type, as characters.
pub open spec fn kind_name(t: ObjectType) -> Seq<char> {
    match t {
        ObjectType::Blob => seq!['b', 'l', 'o', 'b'],
        ObjectType::Tree => seq!['t', 'r', 'e', 'e'],
        ObjectType::Commit => seq!['c', 'o', 'm', 'm', 'i', 't'],
        ObjectType::Tag => seq!['t', 'a', 'g'],
    }
}

/// The name of a type, as the ASCII bytes that a header holds.
pub open spec fn kind_name_bytes(t: ObjectType) -> Seq<u8> {
    match t {
        ObjectType::Blob => seq![98u8, 108u8, 111u8, 98u8],
        ObjectType::Tree => seq![116u8, 114u8, 101u8, 101u8],
        ObjectType::Commit => seq![99u8, 111u8, 109u8, 109u8, 105u8, 116u8],
        ObjectType::Tag => seq![116u8, 97u8, 103u8],
    }
}

/// The type whose name is `name`, if any.
pub open spec fn kind_from_name(name: Seq<char>) -> Option<ObjectType> {
    if name == kind_name(ObjectType::Blob) {
        Some(ObjectType::Blob)
    } else if name == kind_name(ObjectType::Tree) {
        Some(ObjectType::Tree)
    } else if name == kind_name(ObjectType::Commit) {
        Some(ObjectType::Commit)
    } else if name == kind_name(ObjectType::Tag) {
        Some(ObjectType::Tag)
    } else {
        None
    }
}

/// The type whose name, as bytes, is `name`, if any.
pub open spec fn kind_from_bytes(name: Seq<u8>) -> Option<ObjectType> {
    if name == kind_name_bytes(ObjectType::Blob) {
        Some(ObjectType::Blob)
    } else if name == kind_name_bytes(ObjectType::Tree) {
        Some(ObjectType::Tree)
    } else if name == kind_name_bytes(ObjectType::Commit) {
        Some(ObjectType::Commit)
    } else if name == kind_name_bytes(ObjectType::Tag) {
        Some(ObjectType::Tag)
    } else {
        None
    }
}

/// The stored form of an object: the header `<type> <size>\0`, with the
/// size in decimal, followed by the content.
pub open spec fn encode_object(t: ObjectType, data: Seq<u8>) -> Seq<u8> {
    kind_name_bytes(t) + seq![32u8] + decimal(data.len()) + seq![0u8] + data
}

/// What reading an object back from its stored form gives: the header runs
/// up to the first NUL byte, must be UTF-8, must be a type name and a size
/// separated by exactly one space, and the size must be the number of bytes
/// after the NUL.
pub open spec fn decode_object(raw: Seq<u8>) -> Result<(ObjectType, Seq<u8>), ErrorView> {
    match first_index(raw, 0u8) {
        None => Err(ErrorView::NoNullByte),
        Some(n) => {
            let header = raw.take(n);
            let content = raw.skip(n + 1);
            if !valid_utf8(header) {
                Err(ErrorView::InvalidUtf8Header)
            } else {
                match first_index(header, 32u8) {
                    None => Err(ErrorView::InvalidHeaderFormat),
                    Some(sp) => {
                        let name = header.take(sp);
                        let size_field = header.skip(sp + 1);
                        if first_index(size_field, 32u8) is Some {
                            Err(ErrorView::InvalidHeaderFormat)
                        } else {
                            match kind_from_bytes(name) {
                                None => Err(ErrorView::UnknownObjectType(name)),
                                Some(t) => match parse_decimal(size_field) {
                                    None => Err(ErrorView::InvalidSize),
                                    Some(size) => if content.len() == size {
                                        Ok((t, content))
                                    } else {
                                        Err(
                                            ErrorView::SizeMismatch {
                                                expected: size,
                                                got: content.len(),
                                            },
                                        )
                                    },
                                },
                            }
                        }
                    },
                }
            }
        },
    }
}

/// What reading a compressed stored object gives.
pub open spec fn read_stored(stored: Seq<u8>) -> Result<(ObjectType, Seq<u8>), ErrorView> {
    match zlib_decompressed(stored) {
        None => Err(ErrorView::DecompressFailed),
        Some(raw) => decode_object(raw),
    }
}

/// The id of an object: the hexadecimal SHA-1 digest of its stored form.
pub open spec fn object_id(t: ObjectType, data: Seq<u8>) -> Seq<char> {
    hex_lower(sha1_digest(encode_object(t, data)))
}

/// Type names are ASCII, so their UTF-8 encoding is their byte spelling.
pub proof fn lemma_kind_name_encoding(t: ObjectType)
    ensures
        encode_utf8(kind_name(t)) == kind_name_bytes(t),
{
    let name = kind_name(t);
    assert(is_ascii_chars(name));
    is_ascii_chars_encode_utf8(name);
    assert(encode_utf8(name) =~= kind_name_bytes(t));
}

/// Matching a name's UTF-8 bytes is matching the name.
pub proof fn lemma_kind_from_encoding(name: Seq<char>)
    ensures
        kind_from_bytes(encode_utf8(name)) == kind_from_name(name),
{
    lemma_kind_name_encoding(ObjectType::Blob);
    lemma_kind_name_encoding(ObjectType::Tree);
    lemma_kind_name_encoding(ObjectType::Commit);
    lemma_kind_name_encoding(ObjectType::Tag);
    assert(decode_utf8(encode_utf8(name)) == name);
    assert(decode_utf8(encode_utf8(kind_name(ObjectType::Blob))) == kind_name(ObjectType::Blob));
    assert(decode_utf8(encode_utf8(kind_name(ObjectType::Tree))) == kind_name(ObjectType::Tree));
    assert(decode_utf8(encode_utf8(kind_name(ObjectType::Commit))) == kind_name(
        ObjectType::Commit,
    ));
    assert(decode_utf8(encode_utf8(kind_name(ObjectType::Tag))) == kind_name(ObjectType::Tag));
}

/// Type names are spelled with lowercase ASCII letters.
pub proof fn lemma_kind_name_letters(t: ObjectType)
    ensures
        forall|i: int|
            0 <= i < kind_name_bytes(t).len() ==> 97 <= #[trigger] kind_name_bytes(t)[i] <= 122,
{
}

/// Each type is recognised from its own name.
pub proof fn lemma_kind_from_own_name(t: ObjectType)
    ensures
        kind_from_bytes(kind_name_bytes(t)) == Some(t),
{
    let blob = kind_name_bytes(ObjectType::Blob);
    let tree = kind_name_bytes(ObjectType::Tree);
    let commit = kind_name_bytes(ObjectType::Commit);
    assert(tree[0] != blob[0]);
    assert(commit.len() != blob.len() && commit.len() != tree.len());
    assert(kind_name_bytes(ObjectType::Tag).len() != blob.len());
    assert(kind_name_bytes(ObjectType::Tag).len() != tree.len());
    assert(kind_name_bytes(ObjectType::Tag).len() != commit.len());
}

/// Reading back the stored form of an object gives the object: the central
/// round trip of the object format.
pub proof fn lemma_decode_encode(t: ObjectType, data: Seq<u8>)
    requires
        data.len() <= usize::MAX,
    ensures
        decode_object(encode_object(t, data)) == Ok::<(ObjectType, Seq<u8>), ErrorView>((t, data)),
{
    let name = kind_name_bytes(t);
    let digits = decimal(data.len());
    let header = name + seq![32u8] + digits;
    let raw = encode_object(t, data);
    let n = header.len() as int;
    lemma_kind_name_letters(t);
    lemma_decimal_digits(data.len());
    lemma_parse_decimal_of_decimal(data.len());
    lemma_kind_from_own_name(t);
    assert(raw =~= header + seq![0u8] + data);
    assert forall|i: int| 0 <= i < header.len() implies 0 < #[trigger] header[i] < 128 by {
        if i < name.len() {
            assert(header[i] == name[i]);
        } else if i > name.len() {
            assert(header[i] == digits[i - name.len() - 1]);
            assert(is_digit(digits[i - name.len() - 1]));
        }
    }
    assert(is_first_index(raw, 0u8, n)) by {
        assert forall|j: int| 0 <= j < n implies raw[j] != 0u8 by {
            assert(raw[j] == header[j]);
        }
    }
    lemma_first_index_unique(raw, 0u8, n);
    assert(raw.take(n) =~= header);
    assert(raw.skip(n + 1) =~= data);
    lemma_ascii_valid_utf8(header);
    assert(is_first_index(header, 32u8, name.len() as int)) by {
        assert forall|j: int| 0 <= j < name.len() implies header[j] != 32u8 by {
            assert(header[j] == name[j]);
        }
    }
    lemma_first_index_unique(header, 32u8, name.len() as int);
    assert(header.take(name.len() as int) =~= name);
    assert(header.skip(name.len() as int + 1) =~= digits);
    lemma_first_index_none(digits, 32u8);
    assert forall|i: int| 0 <= i < digits.len() implies digits[i] != 32u8 by {
        assert(is_digit(digits[i]));
    }
}

/// Parsing the name of a type gives the type back.
pub proof fn lemma_name_round_trip(t: ObjectType)
    ensures
        kind_from_name(kind_name(t)) == Some(t),
{
    lemma_kind_from_own_name(t);
    lemma_kind_from_encoding(kind_name(t));
    lemma_kind_name_encoding(t);
}

/// The stored form is Git's plain one, and reading any such form back gives
/// the object: for every type, every content and the plain decimal spelling
/// of the content's length (no sign, no leading zero), the stored form is
/// `<name> <size>\0<content>` and decodes to that type and content.
pub proof fn lemma_plain_stored_form(t: ObjectType, data: Seq<u8>, size: Seq<u8>)
    requires
        data.len() <= usize::MAX,
        is_canonical_decimal(size),
        digits_value(size) == data.len(),
    ensures
        encode_object(t, data) == kind_name_bytes(t) + seq![32u8] + size + seq![0u8] + data,
        decode_object(kind_name_bytes(t) + seq![32u8] + size + seq![0u8] + data) == Ok::<
            (ObjectType, Seq<u8>),
            ErrorView,
        >((t, data)),
{
    lemma_canonical_unique(size);
    lemma_decode_encode(t, data);
}

/// Distinct objects have distinct stored forms.
pub proof fn lemma_encode_injective(t1: ObjectType, d1: Seq<u8>, t2: ObjectType, d2: Seq<u8>)
    requires
        d1.len() <= usize::MAX,
        d2.len() <= usize::MAX,
        encode_object(t1, d1) == encode_object(t2, d2),
    ensures
        t1 == t2,
        d1 == d2,
{
    lemma_decode_encode(t1, d1);
    lemma_decode_encode(t2, d2);
}

/// A stored object whose stream decompresses to the object's stored form
/// reads back as that object: what a read gives back of a write.
pub proof fn lemma_read_back_stored(t: ObjectType, data: Seq<u8>, stored: Seq<u8>)
    requires
        data.len() <= usize::MAX,
        zlib_decompressed(stored) == Some(encode_object(t, data)),
    ensures
        read_stored(stored) == Ok::<(ObjectType, Seq<u8>), ErrorView>((t, data)),
{
    lemma_decode_encode(t, data);
}

/// Recognises a type name given as bytes.
fn parse_kind_name(name: &[u8]) -> (r: Option<ObjectType>)
    ensures
        r == kind_from_bytes(name@),
{
    let n = name.len();
    if n == 4 && name[0] == 98 && name[1] == 108 && name[2] == 111 && name[3] == 98 {
        assert(name@ =~= kind_name_bytes(ObjectType::Blob));
        Some(ObjectType::Blob)
    } else if n == 4 && name[0] == 116 && name[1] == 114 && name[2] == 101 && name[3] == 101 {
        assert(name@ =~= kind_name_bytes(ObjectType::Tree));
        Some(ObjectType::Tree)
    } else if n == 6 && name[0] == 99 && name[1] == 111 && name[2] == 109 && name[3] == 109
        && name[4] == 105 && name[5] == 116 {
        assert(name@ =~= kind_name_bytes(ObjectType::Commit));
        Some(ObjectType::Commit)
    } else if n == 3 && name[0] == 116 && name[1] == 97 && name[2] == 103 {
        assert(name@ =~= kind_name_bytes(ObjectType::Tag));
        Some(ObjectType::Tag)
    } else {
        None
    }
}

/// Appends all of `bytes` to `out`.
fn push_all(out: &mut Vec<u8>, bytes: &[u8])
    ensures
        final(out)@ == old(out)@ + bytes@,
{
    let mut i: usize = 0;
    while i < bytes.len()
        invariant
            i <= bytes@.len(),
            out@ == old(out)@ + bytes@.take(i as int),
        decreases bytes@.len() - i,
    {
        out.push(bytes[i]);
        i = i + 1;
        assert(out@ =~= old(out)@ + bytes@.take(i as int));
    }
    assert(bytes@.take(i as int) =~= bytes@);
}

impl ObjectType {
    /// The type named `s`; an error naming `s` when it is none of the four.
    pub fn from_str(s: &str) -> (r: Result<ObjectType, GitError>)
        ensures
            match kind_from_name(s@) {
                Some(t) => r == Ok::<ObjectType, GitError>(t),
                None => r matches Err(e) && e@ == ErrorView::UnknownObjectType(s.spec_bytes()),
            },
    {
        let bytes = s.as_bytes();
        proof {
            lemma_kind_from_encoding(s@);
        }
        match parse_kind_name(bytes) {
            Some(t) => Ok(t),
            None => Err(GitError::UnknownObjectType(vstd::slice::slice_to_vec(bytes))),
        }
    }

    /// The name of this type.
    pub fn as_str(&self) -> (r: &str)
        ensures
            r@ == kind_name(*self),
    {
        match self {
            ObjectType::Blob => {
                let s = "blob";
                proof {
                    reveal_strlit("blob");
                }
                assert(s@ =~= kind_name(*self));
                s
            },
            ObjectType::Tree => {
                let s = "tree";
                proof {
                    reveal_strlit("tree");
                }
                assert(s@ =~= kind_name(*self));
                s
            },
            ObjectType::Commit => {
                let s = "commit";
                proof {
                    reveal_strlit("commit");
                }
                assert(s@ =~= kind_name(*self));
                s
            },
            ObjectType::Tag => {
                let s = "tag";
                proof {
                    reveal_strlit("tag");
                }
                assert(s@ =~= kind_name(*self));
                s
            },
        }
    }
}

/// A Git object: a type and its content.
#[derive(Debug, Clone)]
pub struct Object {
    pub obj_type: ObjectType,
    pub data: Vec<u8>,
}

impl View for Object {
    type V = (ObjectType, Seq<u8>);

    open spec fn view(&self) -> (ObjectType, Seq<u8>) {
        (self.obj_type, self.data@)
    }
}

impl Object {
    /// An object of type `obj_type` holding `data`.
    pub fn new(obj_type: ObjectType, data: Vec<u8>) -> (r: Object)
        ensures
            r.obj_type == obj_type,
            r.data@ == data@,
    {
        Object { obj_type, data }
    }

    /// The stored form of this object, header included.
    pub fn serialize(&self) -> (r: Vec<u8>)
        ensures
            r@ == encode_object(self.obj_type, self.data@),
    {
        let name = self.obj_type.as_str().as_bytes();
        proof {
            lemma_kind_name_encoding(self.obj_type);
        }
        let mut out: Vec<u8> = Vec::new();
        push_all(&mut out, name);
        out.push(32u8);
        push_decimal(&mut out, self.data.len());
        out.push(0u8);
        push_all(&mut out, self.data.as_slice());
        assert(out@ =~= encode_object(self.obj_type, self.data@));
        out
    }
    /// Reads an object back from its stored form.
    pub fn deserialize(data: &[u8]) -> (r: Result<Object, GitError>)
        ensures
            match r {
                Ok(o) => decode_object(data@) == Ok::<(ObjectType, Seq<u8>), ErrorView>(o@),
                Err(e) => decode_object(data@) == Err::<(ObjectType, Seq<u8>), ErrorView>(e@),
            },
    {
        let n = match find_byte(data, 0u8) {
            Some(n) => n,
            None => return Err(GitError::NoNullByte),
        };
        assert(is_first_index(data@, 0u8, n as int));
        assert(n < data.len());
        let header = &data[0..n];
        assert(header@ =~= data@.take(n as int));
        if !utf8_is_valid(header) {
            return Err(GitError::InvalidUtf8Header);
        }
        let sp = match find_byte(header, 32u8) {
            Some(sp) => sp,
            None => return Err(GitError::InvalidHeaderFormat),
        };
        let size_field = &header[sp + 1..n];
        assert(size_field@ =~= header@.skip(sp + 1));
        match find_byte(size_field, 32u8) {
            Some(_) => return Err(GitError::InvalidHeaderFormat),
            None => {},
        }
        let name = &header[0..sp];
        assert(name@ =~= header@.take(sp as int));
        let obj_type = match parse_kind_name(name) {
            Some(t) => t,
            None => return Err(GitError::UnknownObjectType(vstd::slice::slice_to_vec(name))),
        };
        let size = match parse_usize(size_field) {
            Some(size) => size,
            None => return Err(GitError::InvalidSize),
        };
        let content = &data[n + 1..data.len()];
        assert(content@ =~= data@.skip(n + 1));
        if content.len() != size {
            return Err(GitError::SizeMismatch { expected: size, got: content.len() });
        }
        Ok(Object::new(obj_type, vstd::slice::slice_to_vec(content)))
    }
    /// The id of this object: the lowercase hexadecimal SHA-1 digest of its
    /// stored form, 40 characters long.
    pub fn hash(&self) -> (r: String)
        ensures
            r@ == object_id(self.obj_type, self.data@),
            r@.len() == 40,
            is_lower_hex(r@),
    {
        let serialized = self.serialize();
        let digest = sha1_of(serialized.as_slice());
        proof {
            lemma_hex_lower_shape(digest@);
        }
        id_from_digest(digest.as_slice())
    }

    /// The compressed stored form of this object; it always succeeds, and
    /// decompressing it reads this object back.
    pub fn compress(&self) -> (r: Result<Vec<u8>, GitError>)
        ensures
            r matches Ok(stored) && {
                &&& stored@ == zlib_compressed(encode_object(self.obj_type, self.data@))
                &&& zlib_decompressed(stored@) == Some(encode_object(self.obj_type, self.data@))
                &&& read_stored(stored@) == Ok::<(ObjectType, Seq<u8>), ErrorView>(self@)
            },
    {
        let serialized = self.serialize();
        let r = zlib_compress(serialized.as_slice());
        proof {
            assert(self.data@.len() == self.data.len());
            if r is Ok {
                lemma_read_back_stored(self.obj_type, self.data@, r->Ok_0@);
            }
        }
        r
    }

    /// Reads an object back from its compressed stored form.
    pub fn decompress(compressed: &[u8]) -> (r: Result<Object, GitError>)
        ensures
            match r {
                Ok(o) => read_stored(compressed@) == Ok::<(ObjectType, Seq<u8>), ErrorView>(o@),
                Err(e) => read_stored(compressed@) == Err::<(ObjectType, Seq<u8>), ErrorView>(e@),
            },
    {
        match zlib_decompress(compressed) {
            Some(raw) => Object::deserialize(raw.as_slice()),
            None => Err(GitError::DecompressFailed),
        }
    }
}

} // verus!
