//! The relay's token rewriting: the address shape, rewriting inside a line,
//! and the round trip through both forwarding directions.

use protohackers::rewrite::replace_message;
use protohackers::rewrite::rewrite_line;
use protohackers::rewrite::token_matches;

const BOGUSCOIN: &[u8] = b"7YWHMfk9JZe0LM0g1ZauHuiSxhI";

#[test]
fn address_shape() {
    // 26 to 35 alphanumeric bytes starting with `7`.
    assert!(token_matches(b"7iKDZEwPZSqIvDnHvVN2r0hUWXD5rHX"));
    assert!(token_matches(b"71234567890123456789012345")); // 26 bytes
    assert!(token_matches(b"71234567890123456789012345678901234")); // 35 bytes
    assert!(!token_matches(b"7123456789012345678901234")); // 25 bytes
    assert!(!token_matches(b"712345678901234567890123456789012345")); // 36 bytes
    assert!(!token_matches(b"7xyz")); // too short
    assert!(!token_matches(b"81234567890123456789012345")); // wrong first byte
    assert!(!token_matches(b"7123456789-123456789012345")); // not alphanumeric
}

#[test]
fn rewrites_matching_token() {
    let line = b"Hi alice, please pay 100$ to 7iKDZEwPZSqIvDnHvVN2r0hUWXD5rHX";
    let expected = b"Hi alice, please pay 100$ to 7YWHMfk9JZe0LM0g1ZauHuiSxhI".to_vec();
    assert_eq!(replace_message(line, BOGUSCOIN), expected);
}

#[test]
fn rewrites_every_matching_token() {
    let line = b"71234567890123456789012345 pays 7iKDZEwPZSqIvDnHvVN2r0hUWXD5rHX";
    let expected =
        b"7YWHMfk9JZe0LM0g1ZauHuiSxhI pays 7YWHMfk9JZe0LM0g1ZauHuiSxhI".to_vec();
    assert_eq!(replace_message(line, BOGUSCOIN), expected);
}

#[test]
fn leaves_near_misses_alone() {
    let line = b"send to 7xyz or 712345678901234567890123456789012345 now";
    assert_eq!(replace_message(line, BOGUSCOIN), line.to_vec());
}

#[test]
fn forwards_unrelated_lines_byte_identical() {
    let cases: &[&[u8]] = &[
        b"",
        b" ",
        b"hello world",
        b"double  spaces   survive",
        b" leading and trailing ",
    ];
    for &line in cases {
        assert_eq!(replace_message(line, BOGUSCOIN), line.to_vec());
    }
}

#[test]
fn relay_round_trip() {
    // Downstream to upstream: the token is replaced and the line terminated.
    let downstream = b"Hi alice, please pay 100$ to 7iKDZEwPZSqIvDnHvVN2r0hUWXD5rHX";
    assert_eq!(
        rewrite_line(downstream, BOGUSCOIN),
        b"Hi alice, please pay 100$ to 7YWHMfk9JZe0LM0g1ZauHuiSxhI\n".to_vec()
    );

    // Upstream to downstream: likewise rewritten.
    let upstream = b"[federico] my address is 71234567890123456789012345";
    assert_eq!(
        rewrite_line(upstream, BOGUSCOIN),
        b"[federico] my address is 7YWHMfk9JZe0LM0g1ZauHuiSxhI\n".to_vec()
    );

    // A line with no qualifying token passes through unchanged but for the
    // terminator.
    let plain = b"nothing to see here";
    assert_eq!(rewrite_line(plain, BOGUSCOIN), b"nothing to see here\n".to_vec());
}
