use faster_base64::decode as b64_decode;
use faster_base64::encode as b64_encode;

fn decoded_vec(text: &str) -> Vec<u8> {
    let mut buf: Vec<u8> = text.as_bytes().to_vec();
    b64_decode(&mut buf);
    buf
}

#[test]
fn encode() {
    assert_eq!(b64_encode(b"Hello"), "SGVsbG8=");
}

#[test]
fn encode_chunk_equal() {
    assert_eq!(b64_encode(b"Hel"), "SGVs");
}

#[test]
fn encode_chunk_long() {
    assert_eq!(
        b64_encode(b"HelHelHelHelHelHelHelHel"),
        "SGVsSGVsSGVsSGVsSGVsSGVsSGVsSGVs"
    );
}

#[test]
fn encode_chunk_remain_1() {
    assert_eq!(b64_encode(b"Hell"), "SGVsbA==");
}

#[test]
fn decode() {
    assert_eq!(decoded_vec("SGVsbG8="), b"Hello");
}

#[test]
fn decode_nothing() {
    assert_eq!(decoded_vec(""), b"");
}

#[test]
fn decode_less_than_4() {
    assert_eq!(decoded_vec("AAA"), b"");
}

#[test]
fn decode_chunk_equal() {
    assert_eq!(decoded_vec("SGVs"), b"Hel");
}

#[test]
fn decode_chunk_long() {
    assert_eq!(
        decoded_vec("SGVsSGVsSGVsSGVsSGVsSGVsSGVsSGVs"),
        b"HelHelHelHelHelHelHelHel"
    );
}

#[test]
fn decode_chunk_remain_1() {
    assert_eq!(decoded_vec("SGVsbA=="), b"Hell");
}

#[test]
fn encode_empty() {
    assert_eq!(b64_encode(b""), "");
}

#[test]
fn repetition() {
    let expected = "SGVs".repeat(8);
    let text = b64_encode(b"HelHelHelHelHelHelHelHel");
    assert_eq!(text, expected);
    assert_eq!(decoded_vec(&text), b"HelHelHelHelHelHelHelHel");
}

#[test]
fn round_trip_every_remainder() {
    for input in [
        &b""[..],
        b"a",
        b"ab",
        b"abc",
        b"abcd",
        b"abcde",
        b"abcdef",
        b"\x00",
        b"\x00\x00",
        b"\xff\xfe\xfd\xfc",
    ] {
        let mut buf = b64_encode(input).into_bytes();
        b64_decode(&mut buf);
        assert_eq!(buf, input);
    }
}

#[test]
fn round_trip_every_byte() {
    let mut all: Vec<u8> = Vec::new();
    for b in 0..=255u8 {
        all.push(b);
    }
    let mut buf = b64_encode(&all).into_bytes();
    b64_decode(&mut buf);
    assert_eq!(buf, all);
}

#[test]
fn round_trip_length_sweep() {
    // exercises the in-place bulk pass at every small length
    for n in 0..100usize {
        let mut input: Vec<u8> = Vec::new();
        for i in 0..n {
            input.push((i * 37 + 11) as u8);
        }
        let mut buf = b64_encode(&input).into_bytes();
        b64_decode(&mut buf);
        assert_eq!(buf, input);
    }
}

#[test]
fn encode_length_law() {
    for n in 0..50usize {
        let input = vec![0u8; n];
        assert_eq!(b64_encode(&input).len(), 4 * ((n + 2) / 3));
    }
}

#[test]
fn padding_law() {
    for n in 0..30usize {
        let input = vec![7u8; n];
        let pads = b64_encode(&input).chars().filter(|c| *c == '=').count();
        let expected = match n % 3 {
            0 => 0,
            1 => 2,
            _ => 1,
        };
        assert_eq!(pads, expected);
    }
}

#[test]
fn decode_length_law() {
    // one, two or three bytes out of the last group, by its padding
    assert_eq!(decoded_vec("SGVsbA==").len(), 4);
    assert_eq!(decoded_vec("SGVsbG8=").len(), 5);
    assert_eq!(decoded_vec("SGVsSGVs").len(), 6);
    assert_eq!(decoded_vec("QQ==").len(), 1);
    assert_eq!(decoded_vec("QUI=").len(), 2);
    assert_eq!(decoded_vec("QUJD").len(), 3);
}

#[test]
fn decode_ignores_trailing_fragment() {
    // a buffer short of a whole final group decodes like the aligned prefix
    assert_eq!(decoded_vec("SGVsX"), b"Hel");
    assert_eq!(decoded_vec("SGVsXY"), b"Hel");
    assert_eq!(decoded_vec("SGVsXYZ"), b"Hel");
}

#[test]
fn alphabet_extremes() {
    assert_eq!(b64_encode(b"\x00\x00\x00"), "AAAA");
    assert_eq!(b64_encode(b"\xff\xff\xff"), "////");
    assert_eq!(b64_encode(b"\xfb\xef\xbe"), "++++");
    assert_eq!(decoded_vec("AAAA"), b"\x00\x00\x00");
    assert_eq!(decoded_vec("////"), b"\xff\xff\xff");
    assert_eq!(decoded_vec("++++"), b"\xfb\xef\xbe");
}
