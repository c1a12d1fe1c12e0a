use pixelveil::bits::{from_be_bytes, to_be_bytes};
use pixelveil::decode::{to_bytes, unframe, DecodeError};

fn bits_of(bytes: &[u8]) -> Vec<bool> {
    bytes
        .iter()
        .flat_map(|b| (0..8).map(move |i| (b >> (7 - i)) & 1 == 1))
        .collect()
}

fn framed(payload: &[u8]) -> Vec<u8> {
    let mut out = (payload.len() as u64).to_be_bytes().to_vec();
    out.extend_from_slice(payload);
    out
}

#[test]
fn twenty_bits_give_two_bytes() {
    let mut bits = bits_of(&[0xa5, 0x3c]);
    bits.extend([true, true, false, true]);
    assert_eq!(bits.len(), 20);
    assert_eq!(to_bytes(bits), vec![0xa5, 0x3c]);
}

#[test]
fn fewer_than_eight_bits_give_no_byte() {
    assert_eq!(to_bytes(vec![]), Vec::<u8>::new());
    assert_eq!(to_bytes(vec![true; 7]), Vec::<u8>::new());
}

#[test]
fn bits_pack_most_significant_first() {
    assert_eq!(
        to_bytes(vec![true, false, false, false, false, false, false, false]),
        vec![0x80]
    );
    assert_eq!(
        to_bytes(vec![false, false, false, false, false, false, false, true]),
        vec![0x01]
    );
    assert_eq!(to_bytes(vec![true; 16]), vec![0xff, 0xff]);
}

#[test]
fn packing_inverts_unpacking() {
    let bytes: Vec<u8> = (0..=255u8).collect();
    assert_eq!(to_bytes(bits_of(&bytes)), bytes);
}

#[test]
fn length_is_eight_big_endian_bytes() {
    assert_eq!(to_be_bytes(0), [0, 0, 0, 0, 0, 0, 0, 0]);
    assert_eq!(to_be_bytes(1), [0, 0, 0, 0, 0, 0, 0, 1]);
    assert_eq!(to_be_bytes(258), [0, 0, 0, 0, 0, 0, 1, 2]);
    assert_eq!(
        to_be_bytes(0x0102_0304_0506_0708),
        [1, 2, 3, 4, 5, 6, 7, 8]
    );
    assert_eq!(to_be_bytes(u64::MAX), [0xff; 8]);
}

#[test]
fn length_reads_back() {
    assert_eq!(from_be_bytes(&[1, 2, 3, 4, 5, 6, 7, 8]), 0x0102_0304_0506_0708);
    assert_eq!(from_be_bytes(&[0, 0, 0, 0, 0, 0, 1, 2, 99, 98]), 258);
    for v in [0u64, 1, 255, 256, 65_535, 1 << 40, u64::MAX] {
        assert_eq!(from_be_bytes(&to_be_bytes(v)), v);
    }
}

#[test]
fn unframe_reads_the_text() {
    assert_eq!(unframe(&framed(b"hello")), Ok(String::from("hello")));
    assert_eq!(unframe(&framed(b"")), Ok(String::new()));
    assert_eq!(
        unframe(&framed("gr\u{fc}\u{df}e \u{1f600}".as_bytes())),
        Ok(String::from("gr\u{fc}\u{df}e \u{1f600}"))
    );
}

#[test]
fn unframe_ignores_what_follows_the_payload() {
    let mut bytes = framed(b"hi");
    bytes.extend([0xff, 0xfe, 0x00]);
    assert_eq!(unframe(&bytes), Ok(String::from("hi")));
}

#[test]
fn fewer_than_eight_bytes_underflow() {
    assert_eq!(unframe(&[]), Err(DecodeError::Underflow));
    assert_eq!(unframe(&[0, 0, 0, 0, 0, 0, 0]), Err(DecodeError::Underflow));
}

#[test]
fn length_beyond_the_bytes_underflows() {
    let mut bytes = 3u64.to_be_bytes().to_vec();
    bytes.extend(b"ab");
    assert_eq!(unframe(&bytes), Err(DecodeError::Underflow));
    assert_eq!(unframe(&[0xff; 8]), Err(DecodeError::Underflow));
    assert_eq!(unframe(&[0xff; 40]), Err(DecodeError::Underflow));
}

#[test]
fn bad_utf8_is_an_encoding_error() {
    assert_eq!(unframe(&framed(&[0xff, 0xfe])), Err(DecodeError::Encoding));
    assert_eq!(unframe(&framed(&[0xc3])), Err(DecodeError::Encoding));
    assert_eq!(
        unframe(&framed(&[b'a', 0xed, 0xa0, 0x80])),
        Err(DecodeError::Encoding)
    );
}

#[test]
fn decode_errors_have_words() {
    assert_eq!(DecodeError::Underflow.message(), "Too few bytes for the message");
    assert_eq!(DecodeError::Encoding.message(), "Message is not valid UTF-8");
    assert_eq!(
        DecodeError::Configuration.message(),
        "No channels or no offsets given"
    );
}
