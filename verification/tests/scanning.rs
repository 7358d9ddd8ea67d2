use bytes::BytesMut;
use simple_redis::calc_total_length;
use simple_redis::decimal::parse_i64;
use simple_redis::decimal::parse_isize;
use simple_redis::decimal::parse_usize;
use simple_redis::decimal::push_decimal;
use simple_redis::extract_fixed_data;
use simple_redis::extract_simple_frame_data;
use simple_redis::find_crlf;
use simple_redis::parse_length;
use simple_redis::parse_length_for_nullable;
use simple_redis::scan::starts_with;
use simple_redis::RespError;

#[test]
fn find_crlf_finds_the_nth_line_end() {
    assert_eq!(find_crlf(b"+OK\r\n", 1), Some(3));
    assert_eq!(find_crlf(b"+OK\r\n", 2), None);
    assert_eq!(find_crlf(b"$3\r\nget\r\n", 1), Some(2));
    assert_eq!(find_crlf(b"$3\r\nget\r\n", 2), Some(7));
    assert_eq!(find_crlf(b"$3\r\nget\r\n", 3), None);
    assert_eq!(find_crlf(b"+OK\r", 1), None);
    assert_eq!(find_crlf(b"+OK\n\r", 1), None);
    assert_eq!(find_crlf(b"+a\r\r\n", 1), Some(3));
    assert_eq!(find_crlf(b"\r\n", 1), None);
    assert_eq!(find_crlf(b"\r\n\r\n", 1), Some(2));
    assert_eq!(find_crlf(b"", 1), None);
    assert_eq!(find_crlf(b"+OK\r\n", 0), None);
}

#[test]
fn header_end_is_found_behind_the_tag() {
    assert_eq!(extract_simple_frame_data(b"+OK\r\n", 43), Ok(3));
    assert_eq!(extract_simple_frame_data(b"+\r\n", 43), Ok(1));
    assert_eq!(
        extract_simple_frame_data(b"+O", 43),
        Err(RespError::NotComplete)
    );
    assert_eq!(
        extract_simple_frame_data(b"-O", 43),
        Err(RespError::NotComplete)
    );
    assert_eq!(
        extract_simple_frame_data(b"+OK", 43),
        Err(RespError::NotComplete)
    );
    assert_eq!(
        extract_simple_frame_data(b"-OK\r\n", 43),
        Err(RespError::InvalidFrameType("-OK\r\n".to_string()))
    );
}

#[test]
fn length_headers_parse() {
    assert_eq!(parse_length(b"*2\r\n", 42), Ok((2, 2)));
    assert_eq!(parse_length(b"%+12\r\nabc", 37), Ok((4, 12)));
    assert!(matches!(
        parse_length(b"*-1\r\n", 42),
        Err(RespError::InvalidFrameType(_))
    ));
    assert!(matches!(
        parse_length(b"*-0\r\n", 42),
        Err(RespError::InvalidFrameType(_))
    ));
    assert_eq!(parse_length(b"*2\r", 42), Err(RespError::NotComplete));
    assert_eq!(parse_length_for_nullable(b"$-1\r\n", 36), Ok((3, -1)));
    assert_eq!(parse_length_for_nullable(b"$10\r\n", 36), Ok((3, 10)));
    assert!(matches!(
        parse_length_for_nullable(b"$1.5\r\n", 36),
        Err(RespError::InvalidFrameType(_))
    ));
}

#[test]
fn total_length_adds_header_and_elements() {
    let wire = b"*2\r\n$3\r\nget\r\n$5\r\nhello\r\n";
    assert_eq!(calc_total_length(wire, 2, 2, 42), Ok(wire.len()));
    assert_eq!(calc_total_length(wire, 2, 1, 42), Ok(13));
    assert_eq!(calc_total_length(wire, 2, 0, 42), Ok(4));
    assert_eq!(
        calc_total_length(wire, 2, 3, 42),
        Err(RespError::NotComplete)
    );
    let set = b"~1\r\n#t\r\n";
    assert_eq!(calc_total_length(set, 2, 1, 126), Ok(8));
    let map = b"%1\r\n+k\r\n*1\r\n_\r\n";
    assert_eq!(calc_total_length(map, 2, 1, 37), Ok(map.len()));
    assert_eq!(
        calc_total_length(b"%1\r\n+k\r\n*1\r\n_\r", 2, 1, 37),
        Err(RespError::NotComplete)
    );
    assert_eq!(calc_total_length(b"$5\r\nhello\r\n", 2, 5, 36), Ok(7));
    assert_eq!(
        calc_total_length(b"*1\r\n$5\r\nhe", 2, 1, 42),
        Err(RespError::NotComplete)
    );
}

#[test]
fn fixed_data_leaves_only_on_a_match() {
    let mut buf = BytesMut::new();
    buf.extend_from_slice(b"_\r\nrest");
    assert_eq!(extract_fixed_data(&mut buf, b"_\r\n"), Ok(()));
    assert_eq!(&buf[..], b"rest");
    assert!(matches!(
        extract_fixed_data(&mut buf, b"_\r\n"),
        Err(RespError::InvalidFrameType(_))
    ));
    assert_eq!(&buf[..], b"rest");
    let mut buf = BytesMut::new();
    buf.extend_from_slice(b"_\r");
    assert_eq!(
        extract_fixed_data(&mut buf, b"_\r\n"),
        Err(RespError::NotComplete)
    );
    assert_eq!(&buf[..], b"_\r");
}

#[test]
fn prefix_test() {
    assert!(starts_with(b"abc", b"ab"));
    assert!(starts_with(b"abc", b""));
    assert!(starts_with(b"abc", b"abc"));
    assert!(!starts_with(b"abc", b"abcd"));
    assert!(!starts_with(b"abc", b"b"));
}

#[test]
fn decimal_numbers_parse() {
    assert_eq!(parse_i64(b"-42"), Some(-42));
    assert_eq!(parse_i64(b"+42"), Some(42));
    assert_eq!(parse_i64(b"0042"), Some(42));
    assert_eq!(parse_i64(b"-0"), Some(0));
    assert_eq!(parse_i64(b"9223372036854775807"), Some(i64::MAX));
    assert_eq!(parse_i64(b"-9223372036854775808"), Some(i64::MIN));
    assert_eq!(parse_i64(b"9223372036854775808"), None);
    assert_eq!(parse_i64(b"18446744073709551616"), None);
    assert_eq!(parse_i64(b""), None);
    assert_eq!(parse_i64(b"-"), None);
    assert_eq!(parse_i64(b"+-1"), None);
    assert_eq!(parse_i64(b"1a"), None);
    assert_eq!(parse_usize(b"2"), Some(2));
    assert_eq!(parse_usize(b"+2"), Some(2));
    assert_eq!(parse_usize(b"-2"), None);
    assert_eq!(parse_usize(b"-0"), None);
    assert_eq!(parse_usize(b"18446744073709551615"), Some(usize::MAX));
    assert_eq!(parse_usize(b"18446744073709551616"), None);
    assert_eq!(parse_isize(b"-1"), Some(-1));
    assert_eq!(parse_isize(b"x"), None);
}

#[test]
fn decimal_digits_are_appended() {
    let mut out = vec![b'$'];
    push_decimal(&mut out, 0);
    push_decimal(&mut out, 907);
    push_decimal(&mut out, u64::MAX);
    assert_eq!(out, b"$090718446744073709551615");
}
