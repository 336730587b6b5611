use ironbucket::chunked::{find_sequence, parse_chunked_data};
use ironbucket::text::{parse_u64, split_chars};

#[test]
fn chunked_body_is_decoded() {
    let body = b"5;chunk-signature=abc\r\nhello\r\n6;chunk-signature=def\r\n world\r\n0;chunk-signature=0\r\n\r\n";
    assert_eq!(parse_chunked_data(body), b"hello world".to_vec());
}

#[test]
fn plain_body_is_returned_unchanged() {
    let body = b"just some bytes";
    assert_eq!(parse_chunked_data(body), body.to_vec());
}

#[test]
fn empty_body_stays_empty() {
    assert_eq!(parse_chunked_data(b""), Vec::<u8>::new());
}

#[test]
fn chunk_size_is_hexadecimal() {
    let mut body = b"a\r\n".to_vec();
    body.extend_from_slice(b"0123456789\r\n0\r\n\r\n");
    assert_eq!(parse_chunked_data(&body), b"0123456789".to_vec());
}

#[test]
fn truncated_chunk_stops_decoding() {
    let body = b"3\r\nabc\r\nff\r\nxy";
    assert_eq!(parse_chunked_data(body), b"abc".to_vec());
}

#[test]
fn chunk_size_with_spaces_and_plus() {
    let body = b" +2 \r\nok\r\n0\r\n\r\n";
    assert_eq!(parse_chunked_data(body), b"ok".to_vec());
}

#[test]
fn find_sequence_finds_first_occurrence() {
    assert_eq!(find_sequence(b"ab\r\ncd\r\n", b"\r\n"), Some(2));
    assert_eq!(find_sequence(b"abcd", b"\r\n"), None);
    assert_eq!(find_sequence(b"aaa", b"aa"), Some(0));
    assert_eq!(find_sequence(b"a", b"aa"), None);
}

#[test]
fn decimal_parse_matches_std() {
    let c: Vec<char> = "18446744073709551615".chars().collect();
    assert_eq!(parse_u64(&c), Some(u64::MAX));
    let c: Vec<char> = "18446744073709551616".chars().collect();
    assert_eq!(parse_u64(&c), None);
    let c: Vec<char> = "+42".chars().collect();
    assert_eq!(parse_u64(&c), Some(42));
    let c: Vec<char> = "".chars().collect();
    assert_eq!(parse_u64(&c), None);
    let c: Vec<char> = "4x".chars().collect();
    assert_eq!(parse_u64(&c), None);
}

#[test]
fn split_keeps_empty_pieces() {
    let c: Vec<char> = "a..b".chars().collect();
    let parts = split_chars(&c, '.');
    assert_eq!(parts.len(), 3);
    assert!(parts[1].is_empty());
}
