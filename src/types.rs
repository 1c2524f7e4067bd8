use vstd::prelude::*;
use vstd::slice::slice_to_vec;
use vstd::utf8::{is_leading_byte_width_1, partial_valid_utf8_extend_ascii_block, valid_utf8};

use crate::errors::ObjectError;
use crate::primitives::{
    deflated_of, hex_chars, hex_encode, inflated_of, sha1_digest, sha1_of, utf8_text,
    zlib_compress, zlib_decompress,
};
use crate::scan::{
    all_digits, find_byte, find_byte_from, lemma_find_byte, lemma_find_byte_at,
    lemma_numeral_round_trip, numeral, numeral_value, parse_numeral, push_numeral,
};

verus! {

/// The closed set of object kinds.
#[derive(Debug, Clone, Copy, PartialEq, Eq, Structural)]
pub enum ObjectType {
    Commit,
    Tree,
    Blob,
    Tag,
}

/// The lowercase ASCII token that names a kind in an object header.
pub open spec fn kind_token(k: ObjectType) -> Seq<u8> {
    match k {
        ObjectType::Blob => seq![98u8, 108u8, 111u8, 98u8],
        ObjectType::Tree => seq![116u8, 114u8, 101u8, 101u8],
        ObjectType::Commit => seq![99u8, 111u8, 109u8, 109u8, 105u8, 116u8],
        ObjectType::Tag => seq![116u8, 97u8, 103u8],
    }
}

/// The kind that a header token names, if any.
pub open spec fn kind_of_token(t: Seq<u8>) -> Option<ObjectType> {
    if t == kind_token(ObjectType::Blob) {
        Some(ObjectType::Blob)
    } else if t == kind_token(ObjectType::Tree) {
        Some(ObjectType::Tree)
    } else if t == kind_token(ObjectType::Commit) {
        Some(ObjectType::Commit)
    } else if t == kind_token(ObjectType::Tag) {
        Some(ObjectType::Tag)
    } else {
        None
    }
}

impl ObjectType {
    /// The header token of this kind, as bytes.
    pub fn token(&self) -> (r: Vec<u8>)
        ensures
            r@ == kind_token(*self),
    {
        match self {
            ObjectType::Blob => vec![98u8, 108u8, 111u8, 98u8],
            ObjectType::Tree => vec![116u8, 114u8, 101u8, 101u8],
            ObjectType::Commit => vec![99u8, 111u8, 109u8, 109u8, 105u8, 116u8],
            ObjectType::Tag => vec![116u8, 97u8, 103u8],
        }
    }

    /// Recognises a header token; matching is exact and case-sensitive.
    pub fn from_token(t: &[u8]) -> (r: Option<ObjectType>)
        ensures
            r == kind_of_token(t@),
    {
        let blob = ObjectType::Blob.token();
        let tree = ObjectType::Tree.token();
        let commit = ObjectType::Commit.token();
        let tag = ObjectType::Tag.token();
        if bytes_equal(t, blob.as_slice()) {
            Some(ObjectType::Blob)
        } else if bytes_equal(t, tree.as_slice()) {
            Some(ObjectType::Tree)
        } else if bytes_equal(t, commit.as_slice()) {
            Some(ObjectType::Commit)
        } else if bytes_equal(t, tag.as_slice()) {
            Some(ObjectType::Tag)
        } else {
            None
        }
    }
}

/// Byte-wise equality of two slices.
pub fn bytes_equal(a: &[u8], b: &[u8]) -> (r: bool)
    ensures
        r == (a@ == b@),
{
    if a.len() != b.len() {
        return false;
    }
    let mut i: usize = 0;
    while i < a.len()
        invariant
            a@.len() == b@.len(),
            i <= a@.len(),
            forall|j: int| 0 <= j < i ==> a@[j] == b@[j],
        decreases a@.len() - i,
    {
        if a[i] != b[i] {
            return false;
        }
        i = i + 1;
    }
    assert(a@ =~= b@);
    true
}


/// The header `"<kind> <size>\0"` that precedes an object's payload.
pub open spec fn header_bytes(k: ObjectType, size: nat) -> Seq<u8> {
    kind_token(k) + seq![32u8] + numeral(size) + seq![0u8]
}

/// The framed, uncompressed representation of an object: header, then payload.
pub open spec fn frame(k: ObjectType, size: nat, content: Seq<u8>) -> Seq<u8> {
    header_bytes(k, size) + content
}

/// The identifier of an object: the lowercase hex SHA-1 digest of its frame.
pub open spec fn object_id(k: ObjectType, size: nat, content: Seq<u8>) -> Seq<char> {
    hex_chars(sha1_of(frame(k, size, content)))
}

/// How a framed byte stream decodes: the kind and the payload, or the error.
/// Bytes beyond the declared size are ignored. The size is plain decimal
/// digits: a sign or surrounding whitespace makes the header malformed.
pub open spec fn decode_frame(s: Seq<u8>) -> Result<(ObjectType, Seq<u8>), ObjectError> {
    let nul = find_byte(s, 0, 0u8);
    if nul >= s.len() {
        Err(ObjectError::InvalidObject)
    } else {
        let header = s.subrange(0, nul);
        let sp = find_byte(header, 0, 32u8);
        if !valid_utf8(header) || sp >= header.len() {
            Err(ObjectError::InvalidObject)
        } else {
            let size_token = header.subrange(sp + 1, header.len() as int);
            if !(size_token.len() > 0 && all_digits(size_token) && numeral_value(size_token)
                <= usize::MAX) {
                Err(ObjectError::InvalidObject)
            } else {
                let size = numeral_value(size_token);
                match kind_of_token(header.subrange(0, sp)) {
                    None => Err(ObjectError::UnknownObjectKind),
                    Some(k) => if nul + 1 + size > s.len() {
                        Err(ObjectError::InvalidObject)
                    } else {
                        Ok((k, s.subrange(nul + 1, nul + 1 + size)))
                    },
                }
            }
        }
    }
}

/// An object: its kind, its declared size and its payload.
#[derive(Debug, Clone)]
pub struct GitObject {
    pub object_type: ObjectType,
    pub object_size: usize,
    pub object_content: Vec<u8>,
}

impl GitObject {
    /// The declared size is the payload's length.
    pub open spec fn wf(&self) -> bool {
        self.object_size == self.object_content@.len()
    }

    /// The frame of this object, as its fields give it.
    pub open spec fn spec_frame(&self) -> Seq<u8> {
        frame(self.object_type, self.object_size as nat, self.object_content@)
    }

    /// The identifier of this object, as its fields give it.
    pub open spec fn spec_id(&self) -> Seq<char> {
        object_id(self.object_type, self.object_size as nat, self.object_content@)
    }

    /// An object of the given kind whose size is the payload's length.
    pub fn new(kind: ObjectType, content: Vec<u8>) -> (r: GitObject)
        ensures
            r.wf(),
            r.object_type == kind,
            r.object_content@ == content@,
    {
        let size = content.len();
        GitObject { object_type: kind, object_size: size, object_content: content }
    }

    /// The framed bytes `"<kind> <size>\0" + content`.
    pub fn encode(&self) -> (r: Vec<u8>)
        ensures
            r@ == self.spec_frame(),
    {
        let mut out = self.object_type.token();
        out.push(32u8);
        push_numeral(self.object_size, &mut out);
        out.push(0u8);
        let mut i: usize = 0;
        let ghost head = out@;
        while i < self.object_content.len()
            invariant
                i <= self.object_content@.len(),
                out@ == head + self.object_content@.subrange(0, i as int),
            decreases self.object_content@.len() - i,
        {
            out.push(self.object_content[i]);
            i = i + 1;
            assert(out@ =~= head + self.object_content@.subrange(0, i as int));
        }
        assert(self.object_content@.subrange(0, i as int) =~= self.object_content@);
        assert(out@ =~= self.spec_frame());
        out
    }

    /// The 40-character lowercase hex identifier of this object.
    pub fn hash(&self) -> (r: String)
        ensures
            r@ == self.spec_id(),
            r@.len() == 40,
    {
        let framed = self.encode();
        let digest = sha1_digest(framed.as_slice());
        hex_encode(digest.as_slice())
    }

    /// The compressed on-disk form: the frame as a zlib stream, which
    /// decompresses back to the frame.
    pub fn compressed(&self) -> (r: Vec<u8>)
        ensures
            r@ == deflated_of(self.spec_frame()),
            inflated_of(r@) == Some(self.spec_frame()),
    {
        let framed = self.encode();
        match zlib_compress(framed.as_slice()) {
            Some(v) => v,
            None => unreached(),
        }
    }

    /// Decodes a framed (already decompressed) byte stream.
    pub fn from_file(data: &[u8]) -> (r: Result<GitObject, ObjectError>)
        ensures
            match r {
                Ok(o) => o.wf() && decode_frame(data@) == Ok::<(ObjectType, Seq<u8>), ObjectError>(
                    (o.object_type, o.object_content@),
                ),
                Err(e) => decode_frame(data@) == Err::<(ObjectType, Seq<u8>), ObjectError>(e),
            },
    {
        let nul = find_byte_from(data, 0, 0u8);
        if nul >= data.len() {
            return Err(ObjectError::InvalidObject);
        }
        let header = &data[0..nul];
        let sp = find_byte_from(header, 0, 32u8);
        proof {
            lemma_find_byte(header@, 0, 32u8);
        }
        let valid = utf8_text(slice_to_vec(header)).is_some();
        if !valid || sp >= header.len() {
            return Err(ObjectError::InvalidObject);
        }
        let size = match parse_numeral(&header[sp + 1..header.len()]) {
            Some(v) => v,
            None => return Err(ObjectError::InvalidObject),
        };
        let kind = match ObjectType::from_token(&header[0..sp]) {
            Some(k) => k,
            None => return Err(ObjectError::UnknownObjectKind),
        };
        if size > data.len() - (nul + 1) {
            return Err(ObjectError::InvalidObject);
        }
        let content = slice_to_vec(&data[nul + 1..nul + 1 + size]);
        Ok(GitObject { object_type: kind, object_size: size, object_content: content })
    }

    /// Decompresses a stored zlib stream and decodes the frame it holds.
    pub fn from_compressed(data: &[u8]) -> (r: Result<GitObject, ObjectError>)
        ensures
            match inflated_of(data@) {
                None => r matches Err(ObjectError::File(_)),
                Some(raw) => match r {
                    Ok(o) => o.wf() && decode_frame(raw) == Ok::<(ObjectType, Seq<u8>), ObjectError>(
                        (o.object_type, o.object_content@),
                    ),
                    Err(e) => decode_frame(raw) == Err::<(ObjectType, Seq<u8>), ObjectError>(e),
                },
            },
    {
        match zlib_decompress(data) {
            Some(raw) => GitObject::from_file(raw.as_slice()),
            None => Err(ObjectError::File(String::from_str("corrupt compressed stream"))),
        }
    }
}


/// A header is made of ASCII bytes, and only its last byte is NUL.
proof fn lemma_header_shape(k: ObjectType, size: nat)
    ensures
        forall|i: int|
            0 <= i < header_bytes(k, size).len() ==> #[trigger] header_bytes(k, size)[i] < 128,
        forall|i: int|
            0 <= i < header_bytes(k, size).len() - 1 ==> #[trigger] header_bytes(k, size)[i] != 0,
        header_bytes(k, size).last() == 0,
{
    lemma_numeral_round_trip(size);
    let t = kind_token(k);
    let n = numeral(size);
    let h = header_bytes(k, size);
    assert forall|i: int| 0 <= i < h.len() implies #[trigger] h[i] < 128 && (i < h.len() - 1
        ==> h[i] != 0) by {
        if i < t.len() {
            assert(h[i] == t[i]);
        } else if i == t.len() {
        } else if i < t.len() + 1 + n.len() {
            assert(h[i] == n[i - t.len() - 1]);
        }
    }
}

/// Decoding the frame of a kind and a payload gives back that kind and
/// that payload.
pub proof fn lemma_round_trip(k: ObjectType, content: Seq<u8>)
    requires
        content.len() <= usize::MAX,
    ensures
        decode_frame(frame(k, content.len(), content)) == Ok::<(ObjectType, Seq<u8>), ObjectError>(
            (k, content),
        ),
{
    let size = content.len();
    let s = frame(k, size, content);
    let h = header_bytes(k, size);
    let t = kind_token(k);
    let n = numeral(size);
    lemma_header_shape(k, size);
    lemma_numeral_round_trip(size);
    let nul = h.len() - 1;
    assert forall|i: int| 0 <= i < nul implies s[i] != 0 by {
        assert(s[i] == h[i]);
    }
    assert(s[nul] == h[nul]);
    lemma_find_byte_at(s, 0, nul, 0u8);
    let header = s.subrange(0, nul);
    assert(header =~= t + seq![32u8] + n);
    assert forall|i: int| 0 <= i < header.len() implies is_leading_byte_width_1(
        #[trigger] header[i],
    ) by {
        assert(header[i] == h[i]);
    }
    assert(valid_utf8(header.subrange(0, 0)));
    partial_valid_utf8_extend_ascii_block(header, 0, header.len() as int);
    assert(header.subrange(0, header.len() as int) =~= header);
    assert forall|i: int| 0 <= i < t.len() implies header[i] != 32u8 by {
        assert(header[i] == t[i]);
    }
    lemma_find_byte_at(header, 0, t.len() as int, 32u8);
    assert(header.subrange(t.len() + 1 as int, header.len() as int) =~= n);
    assert(header.subrange(0, t.len() as int) =~= t);
    assert(kind_of_token(t) == Some(k)) by {
        reveal_with_fuel(kind_of_token, 1);
        if k != ObjectType::Blob {
            assert(t[0] != kind_token(ObjectType::Blob)[0] || t[1] != kind_token(
                ObjectType::Blob,
            )[1] || t.len() != 4);
        }
        if k != ObjectType::Tree {
            assert(t[0] != kind_token(ObjectType::Tree)[0] || t[1] != kind_token(
                ObjectType::Tree,
            )[1]);
        }
        if k != ObjectType::Commit {
            assert(t[0] != kind_token(ObjectType::Commit)[0] || t.len() != 6);
        }
    }
    assert(s.subrange(nul + 1, nul + 1 + size) =~= content);
}

/// The identifier is a function of kind, size and payload alone: equal
/// inputs give equal identifiers, and any two frames that differ in their
/// payload differ as digest inputs.
pub proof fn lemma_hash_deterministic(
    k1: ObjectType,
    s1: nat,
    c1: Seq<u8>,
    k2: ObjectType,
    s2: nat,
    c2: Seq<u8>,
)
    ensures
        (k1 == k2 && s1 == s2 && c1 == c2) ==> object_id(k1, s1, c1) == object_id(k2, s2, c2),
        (k1 == k2 && s1 == s2 && c1 != c2) ==> frame(k1, s1, c1) != frame(k2, s2, c2),
{
    if k1 == k2 && s1 == s2 && c1 != c2 && frame(k1, s1, c1) == frame(k2, s2, c2) {
        let h = header_bytes(k1, s1);
        assert(c1 =~= frame(k1, s1, c1).subrange(h.len() as int, frame(k1, s1, c1).len() as int));
        assert(c2 =~= frame(k2, s2, c2).subrange(h.len() as int, frame(k2, s2, c2).len() as int));
    }
}

/// What is stored for an object reads back as that object: a zlib stream
/// that decompresses to its frame decodes to its kind and payload, with the
/// same identifier.
pub proof fn lemma_stored_round_trip(o: GitObject, stored: Seq<u8>)
    requires
        o.wf(),
        inflated_of(stored) == Some(o.spec_frame()),
    ensures
        inflated_of(stored) matches Some(raw) && decode_frame(raw) == Ok::<
            (ObjectType, Seq<u8>),
            ObjectError,
        >((o.object_type, o.object_content@)),
        decode_frame(o.spec_frame()) matches Ok((k, c)) && object_id(k, c.len(), c) == o.spec_id(),
{
    lemma_round_trip(o.object_type, o.object_content@);
}

/// Decoding an object's frame yields an object with the same identifier.
pub proof fn lemma_identifier_recoverable(o: GitObject)
    requires
        o.wf(),
    ensures
        decode_frame(o.spec_frame()) matches Ok((k, c)) && object_id(k, c.len(), c) == o.spec_id(),
{
    lemma_round_trip(o.object_type, o.object_content@);
}

} // verus!
