use canary::{Bincode, Bson, Failure, Format, Json, Postcard, ReadFormat, SendFormat};

#[test]
fn format_tags() {
    assert_eq!(Format::Bincode.tag(), 1);
    assert_eq!(Format::Json.tag(), 2);
    assert_eq!(Format::Bson.tag(), 3);
    assert_eq!(Format::Postcard.tag(), 4);
    for t in 1u8..=4 {
        assert_eq!(Format::from_tag(t).unwrap().tag(), t);
    }
    assert_eq!(Format::from_tag(0), None);
    assert_eq!(Format::from_tag(5), None);
}

#[test]
fn bincode_string_is_fixed_width_little_endian() {
    let b = Bincode.serialize("hi").unwrap();
    assert_eq!(b, vec![2, 0, 0, 0, 0, 0, 0, 0, b'h', b'i']);
}

#[test]
fn bincode_trailing_bytes_allowed() {
    let mut b = Bincode.serialize("echo").unwrap();
    b.extend([9, 9, 9]);
    assert_eq!(Bincode.deserialize(&b), Ok("echo".to_string()));
}

#[test]
fn bincode_bad_input_is_invalid_data() {
    assert_eq!(Bincode.deserialize(&[1, 0, 0]), Err(Failure::InvalidData));
    assert_eq!(Bincode.deserialize(&[5, 0, 0, 0, 0, 0, 0, 0, b'a']), Err(Failure::InvalidData));
    assert_eq!(Bincode.deserialize(&[1, 0, 0, 0, 0, 0, 0, 0, 0xff]), Err(Failure::InvalidData));
}

#[test]
fn json_string() {
    assert_eq!(Json.serialize("hi").unwrap(), b"\"hi\"".to_vec());
    assert_eq!(Json.deserialize(b"\"hi\""), Ok("hi".to_string()));
    assert_eq!(Json.deserialize(b"hi"), Err(Failure::InvalidData));
}

#[test]
fn postcard_string() {
    assert_eq!(Postcard.serialize("hi").unwrap(), vec![2, b'h', b'i']);
    assert_eq!(Postcard.deserialize(&[2, b'h', b'i']), Ok("hi".to_string()));
}

#[test]
fn bson_needs_a_document_at_top_level() {
    assert_eq!(Bson.serialize("hi"), Err(Failure::InvalidData));
    assert_eq!(Bson.deserialize(b"hi"), Err(Failure::InvalidData));
}

#[test]
fn every_format_round_trips_strings() {
    for f in [Format::Bincode, Format::Json, Format::Bson, Format::Postcard] {
        for s in ["", "hi", "math/add", "üñï\"code\" \n\t"] {
            if let Ok(b) = f.serialize(s) {
                assert_eq!(f.deserialize(&b), Ok(s.to_string()));
            } else {
                assert_eq!(f, Format::Bson);
            }
        }
    }
}

#[test]
fn bincode_u64_and_bytes() {
    assert_eq!(Bincode.serialize_u64(0x0102), vec![2, 1, 0, 0, 0, 0, 0, 0]);
    assert_eq!(Bincode.deserialize_u64(&[2, 1, 0, 0, 0, 0, 0, 0]), Ok(0x0102));
    assert_eq!(Bincode.deserialize_u64(&[2, 1]), Err(Failure::InvalidData));
    let b = Bincode.serialize_bytes(&[7, 8]);
    assert_eq!(b, vec![2, 0, 0, 0, 0, 0, 0, 0, 7, 8]);
    assert_eq!(Bincode.deserialize_bytes(&b), Ok(vec![7, 8]));
    assert_eq!(Bincode.deserialize_bytes(&b[..9]), Err(Failure::InvalidData));
}

#[test]
fn bincode_exact_forms_match_trait_forms() {
    assert_eq!(Bincode.serialize_str("ab"), Bincode.serialize("ab"));
    let b = Bincode.serialize_str("ab").unwrap();
    assert_eq!(Bincode.deserialize_str(&b), Ok("ab".to_string()));
}

#[test]
fn json_escapes_exactly() {
    let b = Json.serialize("a\"\\\n\u{1}\u{7f}é").unwrap();
    let mut expected = b"\"a\\\"\\\\\\n\\u0001\x7f".to_vec();
    expected.extend("é".as_bytes());
    expected.push(b'"');
    assert_eq!(b, expected);
    assert_eq!(Json.deserialize(&b), Ok("a\"\\\n\u{1}\u{7f}é".to_string()));
}

#[test]
fn json_rejects_non_strings() {
    assert_eq!(Json.deserialize(b"{"), Err(Failure::InvalidData));
    assert_eq!(Json.deserialize(b"5"), Err(Failure::InvalidData));
    assert_eq!(Format::Json.deserialize(b"[\"a\"]"), Err(Failure::InvalidData));
}

#[test]
fn postcard_varint_length() {
    let s = "x".repeat(300);
    let b = Postcard.serialize(&s).unwrap();
    assert_eq!(&b[..2], &[0xac, 0x02]);
    assert_eq!(b.len(), 302);
    assert_eq!(Postcard.deserialize(&b), Ok(s));
    assert_eq!(Postcard.deserialize(&[5, b'a']), Err(Failure::InvalidData));
}

#[test]
fn bson_carries_no_string() {
    assert_eq!(Format::Bson.serialize(""), Err(Failure::InvalidData));
    let doc = [5u8, 0, 0, 0, 0];
    assert_eq!(Format::Bson.deserialize(&doc), Err(Failure::InvalidData));
}
