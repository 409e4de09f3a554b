//! Serialization formats, chosen at run time by a one-byte tag, for the text
//! values that travel over channels (service paths and string messages).
use bincode::Options;
use vstd::prelude::*;
use vstd::utf8::{decode_utf8, encode_utf8, valid_utf8};
use vstd::utf8::{encode_utf8_decode_utf8, encode_utf8_valid_utf8};

use crate::error::Failure;

verus! {

#[verifier::external_type_specification]
#[verifier::external_body]
pub struct ExBincodeErrorKind(bincode::ErrorKind);

#[verifier::external_type_specification]
#[verifier::external_body]
pub struct ExJsonError(serde_json::Error);

#[verifier::external_type_specification]
#[verifier::external_body]
pub struct ExBsonSerError(bson::ser::Error);

#[verifier::external_type_specification]
#[verifier::external_body]
pub struct ExBsonDeError(bson::de::Error);

#[verifier::external_type_specification]
#[verifier::external_body]
pub struct ExPostcardError(postcard::Error);

/// Formats allowed for channels.
#[derive(Debug, Clone, Copy, PartialEq, Eq, Structural)]
pub enum Format {
    /// the bincode serialization format
    Bincode,
    /// the JSON serialization format
    Json,
    /// the BSON serialization format (documents only, so no string)
    Bson,
    /// the Postcard serialization format
    Postcard,
}

/// bincode serialization format
pub struct Bincode;

/// JSON serialization format
pub struct Json;

/// BSON serialization format. BSON holds only documents at the top level, so
/// it carries none of the strings that channels send: every call fails with
/// `InvalidData`.
pub struct Bson;

/// Postcard serialization format
pub struct Postcard;

/// Byte `k` (0 = least significant) of `n`.
pub open spec fn le_byte(n: u64, k: int) -> u8 {
    ((n >> ((8 * k) as u64)) & 0xff) as u8
}

/// The eight little-endian bytes of `n`.
pub open spec fn le_bytes(n: u64) -> Seq<u8> {
    seq![
        le_byte(n, 0), le_byte(n, 1), le_byte(n, 2), le_byte(n, 3),
        le_byte(n, 4), le_byte(n, 5), le_byte(n, 6), le_byte(n, 7),
    ]
}

/// The number whose little-endian form is the first eight bytes of `s`.
pub open spec fn le_value(s: Seq<u8>) -> u64
    recommends
        s.len() >= 8,
{
    ((s[7] as u64) << 56) | ((s[6] as u64) << 48) | ((s[5] as u64) << 40) | ((s[4] as u64) << 32)
        | ((s[3] as u64) << 24) | ((s[2] as u64) << 16) | ((s[1] as u64) << 8) | (s[0] as u64)
}

/// Bincode form of a string (little-endian, fixed-width integers): its UTF-8
/// length as eight bytes, then its UTF-8 bytes.
pub open spec fn bincode_str(s: Seq<char>) -> Seq<u8> {
    le_bytes(encode_utf8(s).len() as u64) + encode_utf8(s)
}

/// Whether `b` starts with a well-formed bincode string.
pub open spec fn bincode_frames_str(b: Seq<u8>) -> bool {
    &&& b.len() >= 8
    &&& le_value(b) <= b.len() - 8
    &&& valid_utf8(b.subrange(8, 8 + le_value(b)))
}

/// The string at the front of `b`, read as bincode.
pub open spec fn bincode_str_at(b: Seq<u8>) -> Seq<char> {
    decode_utf8(b.subrange(8, 8 + le_value(b)))
}

/// Bincode form of a byte vector: its length as eight bytes, then the bytes.
pub open spec fn bincode_bytes(v: Seq<u8>) -> Seq<u8> {
    le_bytes(v.len() as u64) + v
}

/// Whether `b` starts with a whole bincode byte vector.
pub open spec fn bincode_frames_bytes(b: Seq<u8>) -> bool {
    b.len() >= 8 && le_value(b) <= b.len() - 8
}

/// The hexadecimal digit (lower case) for `d < 16`.
pub open spec fn hex_digit(d: u8) -> u8 {
    if d < 10 {
        (48 + d) as u8
    } else {
        (87 + d) as u8
    }
}

/// How serde_json writes one byte of a string's UTF-8 form: quote, backslash
/// and control bytes are escaped, the rest stand as they are.
pub open spec fn json_escape_byte(b: u8) -> Seq<u8> {
    if b == 8 {
        seq![92u8, 98u8]
    } else if b == 9 {
        seq![92u8, 116u8]
    } else if b == 10 {
        seq![92u8, 110u8]
    } else if b == 12 {
        seq![92u8, 102u8]
    } else if b == 13 {
        seq![92u8, 114u8]
    } else if b == 34 {
        seq![92u8, 34u8]
    } else if b == 92 {
        seq![92u8, 92u8]
    } else if b < 32 {
        seq![92u8, 117u8, 48u8, 48u8, hex_digit(b / 16), hex_digit(b % 16)]
    } else {
        seq![b]
    }
}

/// The escaped form of `bytes`, byte by byte.
pub open spec fn json_escape(bytes: Seq<u8>) -> Seq<u8>
    decreases bytes.len(),
{
    if bytes.len() == 0 {
        seq![]
    } else {
        json_escape(bytes.drop_last()) + json_escape_byte(bytes.last())
    }
}

/// What serde_json writes for a string: the escaped UTF-8 bytes in quotes.
pub open spec fn json_str(s: Seq<char>) -> Seq<u8> {
    seq![34u8] + json_escape(encode_utf8(s)) + seq![34u8]
}

/// The string that serde_json reads from `b`, if `b` holds one.
pub uninterp spec fn json_read(b: Seq<u8>) -> Option<Seq<char>>;

/// LEB128 form of `n`: seven bits per byte, least significant first, the high
/// bit set on every byte but the last.
pub open spec fn varint(n: nat) -> Seq<u8>
    decreases n,
{
    if n < 128 {
        seq![n as u8]
    } else {
        seq![(n % 128 + 128) as u8] + varint(n / 128)
    }
}

/// What postcard writes for a string: its UTF-8 length as a varint, then its
/// UTF-8 bytes.
pub open spec fn postcard_str(s: Seq<char>) -> Seq<u8> {
    varint(encode_utf8(s).len()) + encode_utf8(s)
}

/// The string that postcard reads from `b`, if `b` starts with one.
pub uninterp spec fn postcard_read(b: Seq<u8>) -> Option<Seq<char>>;

/// The bytes that format `f` writes for the string `s`; `None` where it writes
/// none (bson writes only documents at the top level, never a string).
pub open spec fn encoding(f: Format, s: Seq<char>) -> Option<Seq<u8>> {
    match f {
        Format::Bincode => Some(bincode_str(s)),
        Format::Json => Some(json_str(s)),
        Format::Bson => None,
        Format::Postcard => Some(postcard_str(s)),
    }
}

/// What format `f` reads from `b`; `None` where `b` holds no string for it.
pub open spec fn reading(f: Format, b: Seq<u8>) -> Option<Seq<char>> {
    match f {
        Format::Bincode => if bincode_frames_str(b) {
            Some(bincode_str_at(b))
        } else {
            None
        },
        Format::Json => json_read(b),
        Format::Bson => None,
        Format::Postcard => postcard_read(b),
    }
}

/// The tag that selects each format.
pub open spec fn tag_of(f: Format) -> u8 {
    match f {
        Format::Bincode => 1,
        Format::Json => 2,
        Format::Bson => 3,
        Format::Postcard => 4,
    }
}

proof fn lemma_le_round_trip(n: u64)
    ensures
        le_value(le_bytes(n)) == n,
{
    assert(((((n >> 56) & 0xff) as u8 as u64) << 56) | ((((n >> 48) & 0xff) as u8 as u64) << 48)
        | ((((n >> 40) & 0xff) as u8 as u64) << 40) | ((((n >> 32) & 0xff) as u8 as u64) << 32)
        | ((((n >> 24) & 0xff) as u8 as u64) << 24) | ((((n >> 16) & 0xff) as u8 as u64) << 16)
        | ((((n >> 8) & 0xff) as u8 as u64) << 8) | (((n >> 0) & 0xff) as u8 as u64) == n)
        by (bit_vector);
}

/// A bincode string, with anything after it, frames and reads back as itself.
proof fn lemma_bincode_str(s: Seq<char>, b: Seq<u8>)
    requires
        b.len() <= u64::MAX,
        b.len() >= bincode_str(s).len(),
        b.subrange(0, bincode_str(s).len() as int) == bincode_str(s),
    ensures
        bincode_frames_str(b),
        bincode_str_at(b) == s,
{
    let u = encode_utf8(s);
    assert(u.len() <= u64::MAX);
    lemma_le_round_trip(u.len() as u64);
    assert(b.subrange(0, 8) =~= le_bytes(u.len() as u64));
    assert(le_value(b) == le_value(b.subrange(0, 8)));
    let t = b.subrange(0, bincode_str(s).len() as int);
    assert forall|i: int| 0 <= i < u.len() implies b[8 + i] == u[i] by {
        assert(t[8 + i] == b[8 + i]);
        assert(t[8 + i] == (le_bytes(u.len() as u64) + u)[8 + i]);
    }
    assert(b.subrange(8, 8 + u.len() as int) =~= u);
    encode_utf8_valid_utf8(s);
    encode_utf8_decode_utf8(s);
}

/// Relies on bincode's `Options::serialize` with fixed-width little-endian
/// integers and no size limit: a string is written as its UTF-8 length in
/// eight bytes, then its UTF-8 bytes, and writing into a `Vec` cannot fail.
#[verifier::external_body]
fn bincode_to_vec(s: &str) -> (r: Result<Vec<u8>, Box<bincode::ErrorKind>>)
    ensures
        r is Ok,
        r is Ok ==> r->Ok_0@ == bincode_str(s@),
{

    bincode::DefaultOptions::new().with_fixint_encoding().allow_trailing_bytes().serialize(s)
}

/// Relies on bincode's `Options::deserialize` with fixed-width little-endian
/// integers and trailing bytes allowed: a string is read as an eight-byte
/// length and that many bytes, which must be UTF-8.
#[verifier::external_body]
fn bincode_from_slice(b: &[u8]) -> (r: Result<String, Box<bincode::ErrorKind>>)
    ensures
        r is Ok <==> bincode_frames_str(b@),
        r is Ok ==> r->Ok_0@ == bincode_str_at(b@),
{

    bincode::DefaultOptions::new().with_fixint_encoding().allow_trailing_bytes().deserialize(b)
}

/// Relies on serde_json::to_vec for a string: the escaped string in quotes,
/// written into a `Vec`, which cannot fail.
#[verifier::external_body]
fn json_to_vec(s: &str) -> (r: Result<Vec<u8>, serde_json::Error>)
    ensures
        r is Ok,
        r is Ok ==> r->Ok_0@ == json_str(s@),
{
    serde_json::to_vec(s)
}

/// Relies on serde_json::from_slice for a string: it reads back what
/// serde_json wrote, and rejects bytes that hold no JSON string.
#[verifier::external_body]
fn json_from_slice(b: &[u8]) -> (r: Result<String, serde_json::Error>)
    ensures
        r is Ok ==> json_read(b@) == Some(r->Ok_0@),
        r is Err ==> json_read(b@) is None,
        forall|s: Seq<char>| b@ == json_str(s) ==> (r is Ok && r->Ok_0@ == s),
{
    serde_json::from_slice(b)
}

/// Relies on bson::to_vec, which writes only documents at the top level and
/// so refuses a string.
#[verifier::external_body]
fn bson_to_vec(s: &str) -> (r: Result<Vec<u8>, bson::ser::Error>)
    ensures
        r is Err,
{
    bson::to_vec(&s)
}

/// Relies on bson::from_slice, which reads a document at the top level, and a
/// document is no string.
#[verifier::external_body]
fn bson_from_slice(b: &[u8]) -> (r: Result<String, bson::de::Error>)
    ensures
        r is Err,
{
    bson::from_slice(b)
}

/// Relies on postcard::to_allocvec for a string: a varint length and the
/// UTF-8 bytes, pushed into a growing `Vec`, which cannot fail.
#[verifier::external_body]
fn postcard_to_vec(s: &str) -> (r: Result<Vec<u8>, postcard::Error>)
    ensures
        r is Ok,
        r is Ok ==> r->Ok_0@ == postcard_str(s@),
{
    postcard::to_allocvec(s)
}

/// Relies on postcard::from_bytes for a string: it reads back what postcard
/// wrote, and rejects bytes that do not start with a string.
#[verifier::external_body]
fn postcard_from_slice(b: &[u8]) -> (r: Result<String, postcard::Error>)
    ensures
        r is Ok ==> postcard_read(b@) == Some(r->Ok_0@),
        r is Err ==> postcard_read(b@) is None,
        forall|s: Seq<char>| b@ == postcard_str(s) ==> (r is Ok && r->Ok_0@ == s),
{
    postcard::from_bytes(b)
}

fn push_le(out: &mut Vec<u8>, n: u64)
    ensures
        final(out)@ == old(out)@ + le_bytes(n),
{
    out.push((n & 0xff) as u8);
    out.push(((n >> 8) & 0xff) as u8);
    out.push(((n >> 16) & 0xff) as u8);
    out.push(((n >> 24) & 0xff) as u8);
    out.push(((n >> 32) & 0xff) as u8);
    out.push(((n >> 40) & 0xff) as u8);
    out.push(((n >> 48) & 0xff) as u8);
    out.push(((n >> 56) & 0xff) as u8);
    assert((n >> 0u64) == n) by (bit_vector);
    assert(final(out)@ =~= old(out)@ + le_bytes(n));
}

fn read_le(b: &[u8]) -> (r: u64)
    requires
        b@.len() >= 8,
    ensures
        r == le_value(b@),
{
    ((b[7] as u64) << 56) | ((b[6] as u64) << 48) | ((b[5] as u64) << 40) | ((b[4] as u64) << 32)
        | ((b[3] as u64) << 24) | ((b[2] as u64) << 16) | ((b[1] as u64) << 8) | (b[0] as u64)
}

/// The serialize side of a format.
pub trait SendFormat {
    /// The bytes this format writes for the string `s`, if it writes any.
    spec fn encoding_of(&self, s: Seq<char>) -> Option<Seq<u8>>;

    /// Serializes a string in this format; failure, exactly where the format
    /// writes nothing for it, is `InvalidData`.
    fn serialize(&self, s: &str) -> (r: Result<Vec<u8>, Failure>)
        ensures
            match r {
                Ok(b) => self.encoding_of(s@) == Some(b@),
                Err(e) => e == Failure::InvalidData && self.encoding_of(s@) is None,
            },
    ;
}

/// The deserialize side of a format: what the format wrote for a string reads
/// back as that string.
pub trait ReadFormat: SendFormat {
    /// The string this format reads from `b`, if `b` holds one.
    spec fn reading_of(&self, b: Seq<u8>) -> Option<Seq<char>>;

    /// Deserializes a string in this format; bytes that hold none are
    /// `InvalidData`.
    fn deserialize(&self, b: &[u8]) -> (r: Result<String, Failure>)
        ensures
            match r {
                Ok(v) => self.reading_of(b@) == Some(v@),
                Err(e) => e == Failure::InvalidData && self.reading_of(b@) is None,
            },
            forall|s: Seq<char>| self.encoding_of(s) == Some(b@) ==> (r is Ok && r->Ok_0@ == s),
    ;
}

/// A format that can serialize and deserialize.
pub trait CompleteFormat: SendFormat + ReadFormat {

}

impl Format {
    /// The one-byte tag of this format.
    pub fn tag(&self) -> (r: u8)
        ensures
            r == tag_of(*self),
    {
        match self {
            Format::Bincode => 1,
            Format::Json => 2,
            Format::Bson => 3,
            Format::Postcard => 4,
        }
    }

    /// The format with the given tag, if any.
    pub fn from_tag(tag: u8) -> (r: Option<Format>)
        ensures
            match r {
                Some(f) => tag_of(f) == tag,
                None => 1 > tag || tag > 4,
            },
    {
        match tag {
            1 => Some(Format::Bincode),
            2 => Some(Format::Json),
            3 => Some(Format::Bson),
            4 => Some(Format::Postcard),
            _ => None,
        }
    }

}

impl SendFormat for Format {
    open spec fn encoding_of(&self, s: Seq<char>) -> Option<Seq<u8>> {
        encoding(*self, s)
    }

    fn serialize(&self, s: &str) -> (r: Result<Vec<u8>, Failure>) {
        match self {
            Format::Bincode => Bincode.serialize(s),
            Format::Json => Json.serialize(s),
            Format::Bson => Bson.serialize(s),
            Format::Postcard => Postcard.serialize(s),
        }
    }
}

impl ReadFormat for Format {
    open spec fn reading_of(&self, b: Seq<u8>) -> Option<Seq<char>> {
        reading(*self, b)
    }

    fn deserialize(&self, b: &[u8]) -> (r: Result<String, Failure>) {
        let r = match self {
            Format::Bincode => Bincode.deserialize_str(b),
            Format::Json => Json.deserialize(b),
            Format::Bson => Bson.deserialize(b),
            Format::Postcard => Postcard.deserialize(b),
        };
        assert forall|s: Seq<char>| self.encoding_of(s) == Some(b@) implies (r is Ok && r->Ok_0@
            == s) by {
            match self {
                Format::Bincode => {},
                Format::Json => assert(Json.encoding_of(s) == Some(json_str(s))),
                Format::Bson => {},
                Format::Postcard => assert(Postcard.encoding_of(s) == Some(postcard_str(s))),
            }
        }
        r
    }
}

impl CompleteFormat for Format {

}

impl Bincode {
    /// Serializes a string as bincode.
    pub fn serialize_str(&self, s: &str) -> (r: Result<Vec<u8>, Failure>)
        ensures
            r matches Ok(b) && b@ == bincode_str(s@),
    {
        match bincode_to_vec(s) {
            Ok(b) => Ok(b),
            Err(_) => Err(Failure::InvalidData),
        }
    }

    /// Serializes a `u64` as bincode: eight little-endian bytes.
    pub fn serialize_u64(&self, n: u64) -> (r: Vec<u8>)
        ensures
            r@ == le_bytes(n),
    {
        let mut out: Vec<u8> = Vec::new();
        push_le(&mut out, n);
        out
    }

    /// Deserializes a bincode `u64`; anything after it is ignored.
    pub fn deserialize_u64(&self, b: &[u8]) -> (r: Result<u64, Failure>)
        ensures
            b@.len() >= 8 ==> r == Ok::<u64, Failure>(le_value(b@)),
            b@.len() < 8 ==> r == Err::<u64, Failure>(Failure::InvalidData),
            forall|n: u64| b@ == le_bytes(n) ==> r == Ok::<u64, Failure>(n),
    {
        proof {
            assert forall|n: u64| b@ == le_bytes(n) implies le_value(b@) == n by {
                lemma_le_round_trip(n);
            }
        }
        if b.len() < 8 {
            return Err(Failure::InvalidData);
        }
        Ok(read_le(b))
    }

    /// Serializes a byte vector as bincode.
    pub fn serialize_bytes(&self, v: &[u8]) -> (r: Vec<u8>)
        ensures
            r@ == bincode_bytes(v@),
    {
        let mut out: Vec<u8> = Vec::new();
        push_le(&mut out, v.len() as u64);
        let mut i: usize = 0;
        while i < v.len()
            invariant
                i <= v@.len(),
                out@ == le_bytes(v@.len() as u64) + v@.subrange(0, i as int),
            decreases v@.len() - i,
        {
            out.push(v[i]);
            i = i + 1;
            assert(v@.subrange(0, i as int) =~= v@.subrange(0, i - 1) + seq![v@[i - 1]]);
        }
        assert(v@.subrange(0, v@.len() as int) =~= v@);
        out
    }

    /// Deserializes a bincode byte vector; anything after it is ignored.
    pub fn deserialize_bytes(&self, b: &[u8]) -> (r: Result<Vec<u8>, Failure>)
        ensures
            bincode_frames_bytes(b@) ==> (r matches Ok(v) && v@ == b@.subrange(
                8,
                8 + le_value(b@),
            )),
            !bincode_frames_bytes(b@) ==> r == Err::<Vec<u8>, Failure>(Failure::InvalidData),
            forall|v: Seq<u8>| b@ == bincode_bytes(v) ==> (r matches Ok(w) && w@ == v),
    {
        let n = b.len();
        proof {
            assert forall|v: Seq<u8>| b@ == bincode_bytes(v) implies bincode_frames_bytes(b@)
                && b@.subrange(8, 8 + le_value(b@)) == v by {
                lemma_le_round_trip(v.len() as u64);
                assert(b@.subrange(0, 8) =~= le_bytes(v.len() as u64));
                assert(le_value(b@) == le_value(b@.subrange(0, 8)));
                assert(b@.subrange(8, 8 + v.len() as int) =~= v);
            }
        }
        if n < 8 {
            return Err(Failure::InvalidData);
        }
        let len = read_le(b);
        if len > (n - 8) as u64 {
            return Err(Failure::InvalidData);
        }
        let end = 8 + len as usize;
        let mut out: Vec<u8> = Vec::new();
        let mut i: usize = 8;
        while i < end
            invariant
                8 <= i <= end <= b@.len(),
                out@ == b@.subrange(8, i as int),
            decreases end - i,
        {
            out.push(b[i]);
            i = i + 1;
            assert(b@.subrange(8, i as int) =~= b@.subrange(8, i - 1) + seq![b@[i - 1]]);
        }
        Ok(out)
    }

    /// Deserializes a bincode string; anything after it is ignored.
    pub fn deserialize_str(&self, b: &[u8]) -> (r: Result<String, Failure>)
        ensures
            r is Ok <==> bincode_frames_str(b@),
            r is Ok ==> r->Ok_0@ == bincode_str_at(b@),
            r is Err ==> r->Err_0 == Failure::InvalidData,
            forall|s: Seq<char>| b@ == bincode_str(s) ==> (r is Ok && r->Ok_0@ == s),
    {
        let n = b.len();
        proof {
            assert forall|s: Seq<char>| b@ == bincode_str(s) implies bincode_frames_str(b@)
                && bincode_str_at(b@) == s by {
                assert(b@.subrange(0, bincode_str(s).len() as int) =~= bincode_str(s));
                lemma_bincode_str(s, b@);
            }
        }
        match bincode_from_slice(b) {
            Ok(s) => Ok(s),
            Err(_) => Err(Failure::InvalidData),
        }
    }
}

impl SendFormat for Bincode {
    open spec fn encoding_of(&self, s: Seq<char>) -> Option<Seq<u8>> {
        Some(bincode_str(s))
    }

    fn serialize(&self, s: &str) -> (r: Result<Vec<u8>, Failure>) {
        self.serialize_str(s)
    }
}

impl ReadFormat for Bincode {
    open spec fn reading_of(&self, b: Seq<u8>) -> Option<Seq<char>> {
        reading(Format::Bincode, b)
    }

    fn deserialize(&self, b: &[u8]) -> (r: Result<String, Failure>) {
        self.deserialize_str(b)
    }
}

impl CompleteFormat for Bincode {

}

impl SendFormat for Json {
    open spec fn encoding_of(&self, s: Seq<char>) -> Option<Seq<u8>> {
        Some(json_str(s))
    }

    fn serialize(&self, s: &str) -> (r: Result<Vec<u8>, Failure>) {
        match json_to_vec(s) {
            Ok(x) => Ok(x),
            Err(_) => Err(Failure::InvalidData),
        }
    }
}

impl ReadFormat for Json {
    open spec fn reading_of(&self, b: Seq<u8>) -> Option<Seq<char>> {
        json_read(b)
    }

    fn deserialize(&self, b: &[u8]) -> (r: Result<String, Failure>) {
        match json_from_slice(b) {
            Ok(x) => Ok(x),
            Err(_) => Err(Failure::InvalidData),
        }
    }
}

impl CompleteFormat for Json {

}

impl SendFormat for Bson {
    open spec fn encoding_of(&self, s: Seq<char>) -> Option<Seq<u8>> {
        None
    }

    fn serialize(&self, s: &str) -> (r: Result<Vec<u8>, Failure>) {
        match bson_to_vec(s) {
            Ok(x) => Ok(x),
            Err(_) => Err(Failure::InvalidData),
        }
    }
}

impl ReadFormat for Bson {
    open spec fn reading_of(&self, b: Seq<u8>) -> Option<Seq<char>> {
        None
    }

    fn deserialize(&self, b: &[u8]) -> (r: Result<String, Failure>) {
        match bson_from_slice(b) {
            Ok(x) => Ok(x),
            Err(_) => Err(Failure::InvalidData),
        }
    }
}

impl CompleteFormat for Bson {

}

impl SendFormat for Postcard {
    open spec fn encoding_of(&self, s: Seq<char>) -> Option<Seq<u8>> {
        Some(postcard_str(s))
    }

    fn serialize(&self, s: &str) -> (r: Result<Vec<u8>, Failure>) {
        match postcard_to_vec(s) {
            Ok(x) => Ok(x),
            Err(_) => Err(Failure::InvalidData),
        }
    }
}

impl ReadFormat for Postcard {
    open spec fn reading_of(&self, b: Seq<u8>) -> Option<Seq<char>> {
        postcard_read(b)
    }

    fn deserialize(&self, b: &[u8]) -> (r: Result<String, Failure>) {
        match postcard_from_slice(b) {
            Ok(x) => Ok(x),
            Err(_) => Err(Failure::InvalidData),
        }
    }
}

impl CompleteFormat for Postcard {

}

} // verus!
