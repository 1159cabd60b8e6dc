use osc_codec::{OscError, OscMessage, OscReader, OscType, OscWriter, get_type_tag};

fn encode_value(v: &OscType) -> Vec<u8> {
    let mut w = OscWriter::new(Vec::new());
    w.write(v);
    w.into_inner()
}

fn encode_message(m: &OscMessage) -> Vec<u8> {
    let mut w = OscWriter::new(Vec::new());
    m.write_to(&mut w);
    w.into_inner()
}

#[test]
fn test_write_osc_string() {
    let expected = b"asdf\0\0\0\0".to_vec();
    let mut writer = OscWriter::new(Vec::new());
    writer.write(&OscType::OscString(b"asdf".to_vec()));
    assert_eq!(writer.into_inner(), expected);
}

#[test]
fn test_read_osc_string() {
    let data = b"asdf\0\0\0\0".to_vec();
    let mut reader = OscReader::new(data);
    match reader.read(b's') {
        Ok(OscType::OscString(val)) => assert_eq!(val, b"asdf".to_vec()),
        e => panic!("error: {:?}", e),
    }
}

#[test]
fn test_write_osc_message() {
    let expected = b"/test/do\0\0\0\0,ss\0Hello\0\0\0world\0\0\0".to_vec();
    let msg = OscMessage {
        address: b"/test/do".to_vec(),
        arguments: vec![
            OscType::OscString(b"Hello".to_vec()),
            OscType::OscString(b"world".to_vec()),
        ],
    };
    assert_eq!(encode_message(&msg), expected);
}

#[test]
fn test_read_osc_message() {
    let data = b"/test/do\0\0\0\0,ss\0Hello\0\0\0world\0\0\0".to_vec();
    let mut reader = OscReader::new(data);
    match OscMessage::from_reader(&mut reader) {
        Ok(msg) => {
            assert_eq!(msg.address, b"/test/do".to_vec());
            assert_eq!(msg.arguments.len(), 2);
            assert_eq!(msg.arguments[0], OscType::OscString(b"Hello".to_vec()));
            assert_eq!(msg.arguments[1], OscType::OscString(b"world".to_vec()));
        },
        e => panic!("error: {:?}", e),
    }
}

#[test]
fn string_padding_sizes() {
    // 4 * ceil((L + 1) / 4) bytes, last byte always NUL.
    for len in 0..9usize {
        let text: Vec<u8> = std::iter::repeat(b'a').take(len).collect();
        let out = encode_value(&OscType::OscString(text));
        assert_eq!(out.len(), 4 * ((len + 1 + 3) / 4));
        assert!(out.len() > len);
        assert_eq!(*out.last().unwrap(), 0);
    }
}

#[test]
fn string_full_word_gets_extra_padding() {
    // len + 1 already a multiple of 4: a whole extra NUL word is appended.
    let out = encode_value(&OscType::OscString(b"abc".to_vec()));
    assert_eq!(out, vec![b'a', b'b', b'c', 0]);
    let out = encode_value(&OscType::OscString(b"abcd".to_vec()));
    assert_eq!(out, vec![b'a', b'b', b'c', b'd', 0, 0, 0, 0]);
}

#[test]
fn blob_unpadded_framing() {
    let out = encode_value(&OscType::OscBlob(vec![1, 2, 3, 4, 5]));
    assert_eq!(out, vec![0, 0, 0, 5, 1, 2, 3, 4, 5]);
    assert_eq!(out.len(), 4 + 5);
    let mut reader = OscReader::new(out);
    match reader.read(b'b') {
        Ok(OscType::OscBlob(bytes)) => assert_eq!(bytes, vec![1, 2, 3, 4, 5]),
        e => panic!("error: {:?}", e),
    }
}

#[test]
fn int_big_endian_bytes() {
    let out = encode_value(&OscType::OscInt(0x00112233));
    assert_eq!(out, vec![0x00, 0x11, 0x22, 0x33]);
}

#[test]
fn int_negative_round_trip() {
    let out = encode_value(&OscType::OscInt(-2));
    assert_eq!(out, vec![0xFF, 0xFF, 0xFF, 0xFE]);
    let mut reader = OscReader::new(out);
    assert_eq!(reader.read(b'i'), Ok(OscType::OscInt(-2)));
}

#[test]
fn float_big_endian_bytes() {
    let out = encode_value(&OscType::OscFloat(1.234f32.to_bits()));
    assert_eq!(out, vec![0x3F, 0x9D, 0xF3, 0xB6]);
    let mut reader = OscReader::new(out);
    match reader.read(b'f') {
        Ok(OscType::OscFloat(bits)) => assert_eq!(f32::from_bits(bits), 1.234f32),
        e => panic!("error: {:?}", e),
    }
}

#[test]
fn message_round_trip_all_kinds() {
    let msg = OscMessage {
        address: b"/mix".to_vec(),
        arguments: vec![
            OscType::OscString(b"gain".to_vec()),
            OscType::OscInt(-7),
            OscType::OscFloat(0.5f32.to_bits()),
            OscType::OscBlob(vec![9, 8, 7]),
        ],
    };
    let bytes = encode_message(&msg);
    let mut reader = OscReader::new(bytes);
    assert_eq!(OscMessage::from_reader(&mut reader), Ok(msg));
}

#[test]
fn empty_argument_list_round_trip() {
    let msg = OscMessage { address: b"/ping".to_vec(), arguments: vec![] };
    let bytes = encode_message(&msg);
    assert_eq!(bytes, b"/ping\0\0\0,\0\0\0".to_vec());
    let mut reader = OscReader::new(bytes);
    assert_eq!(OscMessage::from_reader(&mut reader), Ok(msg));
}

#[test]
fn unknown_typetag_reported() {
    let mut reader = OscReader::new(vec![0, 0, 0, 1]);
    assert_eq!(reader.read(b'x'), Err(OscError::UnknownTypeTag(b'x')));
}

#[test]
fn unknown_typetag_in_message() {
    // Address "/a", typetags ",q": q has no registered decoder.
    let data = b"/a\0\0,q\0\0\0\0\0\0".to_vec();
    let mut reader = OscReader::new(data);
    assert_eq!(
        OscMessage::from_reader(&mut reader),
        Err(OscError::UnknownTypeTag(b'q'))
    );
}

#[test]
fn malformed_typetags_reported() {
    // Typetag string "ss" lacks the leading comma.
    let data = b"/a\0\0ss\0\0Hi\0\0ho\0\0".to_vec();
    let mut reader = OscReader::new(data);
    assert_eq!(
        OscMessage::from_reader(&mut reader),
        Err(OscError::MalformedTypeTags)
    );
}

#[test]
fn empty_typetags_reported() {
    // Typetag string is empty: "" decodes from a bare NUL word.
    let data = b"/a\0\0\0\0\0\0".to_vec();
    let mut reader = OscReader::new(data);
    assert_eq!(
        OscMessage::from_reader(&mut reader),
        Err(OscError::MalformedTypeTags)
    );
}

#[test]
fn short_reads_reported() {
    // No NUL terminator at all.
    let mut reader = OscReader::new(b"abcd".to_vec());
    assert_eq!(reader.read(b's'), Err(OscError::Eof));
    // NUL found but the padding bytes are missing.
    let mut reader = OscReader::new(b"ab\0".to_vec());
    assert_eq!(reader.read(b's'), Err(OscError::Eof));
    // Fewer than 4 bytes for an int.
    let mut reader = OscReader::new(vec![1, 2]);
    assert_eq!(reader.read(b'i'), Err(OscError::Eof));
    // Blob length prefix promises more than the source holds.
    let mut reader = OscReader::new(vec![0, 0, 0, 9, 1, 2]);
    assert_eq!(reader.read(b'b'), Err(OscError::Eof));
}

#[test]
fn negative_blob_length_reported() {
    // 0xFFFFFFFF as a signed length is negative: no source can satisfy it.
    let mut reader = OscReader::new(vec![0xFF, 0xFF, 0xFF, 0xFF, 1, 2, 3]);
    assert_eq!(reader.read(b'b'), Err(OscError::Eof));
}

#[test]
fn invalid_utf8_reported() {
    // 0xFF can never appear in UTF-8.
    let mut reader = OscReader::new(vec![0xFF, b'a', 0, 0]);
    assert_eq!(reader.read(b's'), Err(OscError::InvalidEncoding));
}

#[test]
fn multibyte_utf8_round_trip() {
    // Text with 2-byte and 3-byte UTF-8 sequences.
    let text = "h\u{e9}llo\u{20ac}".as_bytes().to_vec();
    let bytes = encode_value(&OscType::OscString(text.clone()));
    let mut reader = OscReader::new(bytes);
    assert_eq!(reader.read(b's'), Ok(OscType::OscString(text)));
}

#[test]
fn type_tags_of_each_kind() {
    assert_eq!(get_type_tag(&OscType::OscString(Vec::new())), b's');
    assert_eq!(get_type_tag(&OscType::OscInt(0)), b'i');
    assert_eq!(get_type_tag(&OscType::OscFloat(0)), b'f');
    assert_eq!(get_type_tag(&OscType::OscBlob(Vec::new())), b'b');
}

#[test]
fn unwrap_each_kind() {
    assert_eq!(OscType::OscString(b"hi".to_vec()).unwrap_string(), b"hi".to_vec());
    assert_eq!(OscType::OscInt(41).unwrap_int(), 41);
    assert_eq!(OscType::OscFloat(3.5f32.to_bits()).unwrap_float(), 3.5f32.to_bits());
    assert_eq!(OscType::OscBlob(vec![1, 2]).unwrap_blob(), vec![1, 2]);
}

#[test]
fn writer_appends_to_existing_bytes() {
    let mut w = OscWriter::new(vec![7]);
    w.write(&OscType::OscInt(1));
    assert_eq!(w.into_inner(), vec![7, 0, 0, 0, 1]);
}
