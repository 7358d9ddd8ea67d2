use bytes::BytesMut;
use simple_redis::codec::next_frame;
use simple_redis::codec::write_frame;
use simple_redis::decode::parse_frame;
use simple_redis::order::compare_bytes;
use simple_redis::order::compare_keys;
use simple_redis::order::KeyOrder;
use simple_redis::BulkString;
use simple_redis::RespArray;
use simple_redis::RespDecode;
use simple_redis::RespEncode;
use simple_redis::RespError;
use simple_redis::RespFrame;
use simple_redis::RespMap;
use simple_redis::RespNull;
use simple_redis::RespSet;
use simple_redis::SimpleError;
use simple_redis::SimpleString;

fn filled(bytes: &[u8]) -> BytesMut {
    let mut buf = BytesMut::new();
    buf.extend_from_slice(bytes);
    buf
}

fn bulk(text: &str) -> RespFrame {
    RespFrame::BulkString(BulkString::new(text.as_bytes().to_vec()))
}

fn get_hello() -> RespFrame {
    RespFrame::Array(RespArray::new(vec![bulk("get"), bulk("hello")]))
}

fn nested() -> RespFrame {
    let inner = RespFrame::Array(RespArray::new(vec![
        RespFrame::Integer(-7),
        RespFrame::Bool(true),
        RespFrame::Null(RespNull),
    ]));
    let mut set = RespSet::new();
    set.0.push(inner);
    set.0.push(bulk(""));
    set.0.push(RespFrame::BulkString(BulkString::nill_new()));
    set.0.push(RespFrame::Array(RespArray::nill_new()));
    let mut map = RespMap::new();
    map.insert("k".to_string(), RespFrame::Integer(1));
    RespFrame::Array(RespArray::new(vec![
        RespFrame::Members(set),
        RespFrame::SimpleError(SimpleError::new("oops".to_string())),
        RespFrame::Mapping(RespMap::new()),
        RespFrame::Array(RespArray::new(Vec::new())),
    ]))
}

#[test]
fn array_of_bulk_strings_decodes() {
    let mut buf = filled(b"*2\r\n$3\r\nget\r\n$5\r\nhello\r\n");
    assert_eq!(RespFrame::decode(&mut buf), Ok(get_hello()));
    assert!(buf.is_empty());
}

#[test]
fn array_encodes_header_then_elements() {
    assert_eq!(get_hello().encode(), b"*2\r\n$3\r\nget\r\n$5\r\nhello\r\n");
    assert_eq!(RespArray::nill_new().encode(), b"*-1\r\n");
    assert_eq!(RespArray::new(Vec::new()).encode(), b"*0\r\n");
    assert_ne!(RespArray::nill_new(), RespArray::new(Vec::new()));
}

#[test]
fn null_array_decodes_without_payload() {
    let mut buf = filled(b"*-1\r\n+x\r\n");
    assert_eq!(RespArray::decode(&mut buf), Ok(RespArray::nill_new()));
    assert_eq!(&buf[..], b"+x\r\n");
    assert_eq!(RespArray::expect_length(b"*-1\r\n"), Ok(5));
}

#[test]
fn truncated_array_waits_and_then_decodes() {
    let mut buf = filled(b"*2\r\n$3\r\ng");
    assert_eq!(RespFrame::decode(&mut buf), Err(RespError::NotComplete));
    assert_eq!(&buf[..], b"*2\r\n$3\r\ng");
    buf.extend_from_slice(b"et\r\n$5\r\nhello\r\n");
    assert_eq!(RespFrame::decode(&mut buf), Ok(get_hello()));
    assert!(buf.is_empty());
}

#[test]
fn every_split_point_waits_for_the_rest() {
    let frames = [get_hello(), nested()];
    for frame in frames {
        let bytes = parse_frame(&RespFrame::encode(copy_of(&frame))).unwrap();
        assert_eq!(bytes.0, frame);
        let wire = RespFrame::encode(copy_of(&frame));
        assert_eq!(bytes.1, wire.len());
        for cut in 0..wire.len() {
            let mut buf = filled(&wire[..cut]);
            assert_eq!(
                RespFrame::decode(&mut buf),
                Err(RespError::NotComplete),
                "cut at {}",
                cut
            );
            assert_eq!(&buf[..], &wire[..cut]);
            buf.extend_from_slice(&wire[cut..]);
            assert_eq!(RespFrame::decode(&mut buf), Ok(copy_of(&frame)));
            assert!(buf.is_empty());
        }
    }
}

fn copy_of(frame: &RespFrame) -> RespFrame {
    frame.duplicate()
}

#[test]
fn byte_by_byte_feeding_gives_the_same_frame() {
    let wire = nested().encode();
    let mut buf = BytesMut::new();
    for (i, byte) in wire.iter().enumerate() {
        buf.extend_from_slice(&[*byte]);
        let got = RespFrame::decode(&mut buf);
        if i + 1 < wire.len() {
            assert_eq!(got, Err(RespError::NotComplete));
            assert_eq!(&buf[..], &wire[..i + 1]);
        } else {
            assert_eq!(got, Ok(nested()));
            assert!(buf.is_empty());
        }
    }
}

#[test]
fn nested_frames_round_trip() {
    let wire = nested().encode();
    let mut buf = filled(&wire);
    buf.extend_from_slice(b":+1\r\n");
    assert_eq!(RespFrame::decode(&mut buf), Ok(nested()));
    assert_eq!(&buf[..], b":+1\r\n");
    assert_eq!(RespFrame::expect_length(&wire), Ok(wire.len()));
}

#[test]
fn frames_are_decoded_one_at_a_time() {
    let mut buf = filled(b"+a\r\n-b\r\n:3\r\n");
    assert_eq!(
        RespFrame::decode(&mut buf),
        Ok(RespFrame::SimpleString(SimpleString::new("a".to_string())))
    );
    assert_eq!(
        RespFrame::decode(&mut buf),
        Ok(RespFrame::SimpleError(SimpleError::new("b".to_string())))
    );
    assert_eq!(RespFrame::decode(&mut buf), Ok(RespFrame::Integer(3)));
    assert_eq!(RespFrame::decode(&mut buf), Err(RespError::NotComplete));
}

#[test]
fn set_encodes_and_decodes_with_line_end_in_header() {
    let mut set = RespSet::new();
    set.0.push(RespFrame::Integer(1));
    set.0.push(RespFrame::Integer(1));
    let wire = set.encode();
    assert_eq!(wire, b"~2\r\n:+1\r\n:+1\r\n");
    let mut buf = filled(&wire);
    let got = RespSet::decode(&mut buf).unwrap();
    assert_eq!(got.0, vec![RespFrame::Integer(1), RespFrame::Integer(1)]);
    assert!(buf.is_empty());
    assert_eq!(RespSet::expect_length(&wire), Ok(wire.len()));
    assert!(matches!(
        RespSet::expect_length(b"~-1\r\n"),
        Err(RespError::InvalidFrameType(_))
    ));
}

#[test]
fn map_encodes_keys_in_ascending_order() {
    let mut map = RespMap::new();
    map.insert("pear".to_string(), RespFrame::Integer(1));
    map.insert("apple".to_string(), RespFrame::Integer(2));
    map.insert("fig".to_string(), RespFrame::Bool(true));
    let mut other = RespMap::new();
    other.insert("fig".to_string(), RespFrame::Bool(true));
    other.insert("pear".to_string(), RespFrame::Integer(1));
    other.insert("apple".to_string(), RespFrame::Integer(2));
    assert_eq!(map, other);
    assert_eq!(map.len(), 3);
    assert_eq!(map.key_at(0), "apple");
    assert_eq!(map.key_at(2), "pear");
    assert_eq!(map.value_at(1), &RespFrame::Bool(true));
    assert_eq!(
        map.encode(),
        b"%3\r\n+apple+\r\n:+2\r\n+fig+\r\n#t\r\n+pear+\r\n:+1\r\n"
    );
    assert_eq!(other.encode(), b"%3\r\n+apple+\r\n:+2\r\n+fig+\r\n#t\r\n+pear+\r\n:+1\r\n");
}

#[test]
fn map_keeps_one_entry_per_key() {
    let mut map = RespMap::new();
    map.insert("a".to_string(), RespFrame::Integer(1));
    map.insert("b".to_string(), RespFrame::Integer(2));
    map.insert("a".to_string(), RespFrame::Integer(3));
    assert_eq!(map.len(), 2);
    assert_eq!(map.get("a"), Some(&RespFrame::Integer(3)));
    assert_eq!(map.get("b"), Some(&RespFrame::Integer(2)));
    assert_eq!(map.get("c"), None);
    assert_eq!(map.encode(), b"%2\r\n+a+\r\n:+3\r\n+b+\r\n:+2\r\n");
}

#[test]
fn map_decodes_into_key_order() {
    let wire = b"%2\r\n+b\r\n:1\r\n+a\r\n$2\r\nhi\r\n";
    let mut buf = filled(wire);
    let got = RespMap::decode(&mut buf).unwrap();
    let mut expect = RespMap::new();
    expect.insert("a".to_string(), bulk("hi"));
    expect.insert("b".to_string(), RespFrame::Integer(1));
    assert_eq!(got, expect);
    assert!(buf.is_empty());
    assert_eq!(RespMap::expect_length(wire), Ok(wire.len()));

    let mut buf = filled(b"%2\r\n+b\r\n:1\r\n+a\r\n$2\r\nh");
    assert_eq!(RespFrame::decode(&mut buf), Err(RespError::NotComplete));
    assert_eq!(&buf[..], b"%2\r\n+b\r\n:1\r\n+a\r\n$2\r\nh");
}

#[test]
fn map_key_must_be_a_simple_string() {
    let mut buf = filled(b"%1\r\n$1\r\na\r\n:1\r\n");
    assert!(matches!(
        RespFrame::decode(&mut buf),
        Err(RespError::InvalidFrameType(_))
    ));
    assert_eq!(&buf[..], b"%1\r\n$1\r\na\r\n:1\r\n");
}

#[test]
fn malformed_element_is_invalid_and_consumes_nothing() {
    for text in [
        &b"*2\r\n:1\r\nZ\r\n"[..],
        b"*1\r\n:abc\r\n",
        b"*-2\r\n",
        b"*x\r\n",
        b"~1\r\n$-7\r\n",
    ] {
        let mut buf = filled(text);
        assert!(
            matches!(
                RespFrame::decode(&mut buf),
                Err(RespError::InvalidFrameType(_))
            ),
            "{:?}",
            text
        );
        assert_eq!(&buf[..], text);
    }
}

#[test]
fn lookahead_comes_before_reading_elements() {
    let mut buf = filled(b"*2\r\n:abc\r\n");
    assert_eq!(RespFrame::decode(&mut buf), Err(RespError::NotComplete));
    let mut buf = filled(b"*2\r\n:abc\r\n:1\r\n");
    assert!(matches!(
        RespFrame::decode(&mut buf),
        Err(RespError::InvalidFrameType(_))
    ));
}

#[test]
fn huge_count_with_little_data_is_not_complete() {
    let mut buf = filled(b"*4000000000\r\n:1\r\n");
    assert_eq!(RespFrame::decode(&mut buf), Err(RespError::NotComplete));
    assert_eq!(&buf[..], b"*4000000000\r\n:1\r\n");
}

#[test]
fn keys_order_by_bytes() {
    assert_eq!(compare_bytes(b"", b""), KeyOrder::Same);
    assert_eq!(compare_bytes(b"", b"a"), KeyOrder::Before);
    assert_eq!(compare_bytes(b"a", b""), KeyOrder::After);
    assert_eq!(compare_bytes(b"ab", b"abc"), KeyOrder::Before);
    assert_eq!(compare_bytes(b"b", b"abc"), KeyOrder::After);
    assert_eq!(compare_bytes(b"abc", b"abc"), KeyOrder::Same);
    assert_eq!(
        compare_keys(&"Z".to_string(), &"a".to_string()),
        KeyOrder::Before
    );
    assert_eq!(
        compare_keys(&"\u{e9}".to_string(), &"z".to_string()),
        KeyOrder::After
    );
}

#[test]
fn conversions_into_the_union() {
    assert_eq!(RespFrame::from(5i64), RespFrame::Integer(5));
    assert_eq!(RespFrame::from(true), RespFrame::Bool(true));
    assert_eq!(RespFrame::from(RespNull), RespFrame::Null(RespNull));
    let frame: RespFrame = BulkString::new(b"x".to_vec()).into();
    assert_eq!(frame, bulk("x"));
    let frame: RespFrame = RespArray::nill_new().into();
    assert_eq!(frame.encode(), b"*-1\r\n");
}

#[test]
fn later_entry_under_one_key_replaces_the_earlier() {
    let mut buf = filled(b"%2\r\n+a\r\n:1\r\n+a\r\n:2\r\n");
    let got = RespMap::decode(&mut buf).unwrap();
    assert_eq!(got.len(), 1);
    assert_eq!(got.get("a"), Some(&RespFrame::Integer(2)));
    assert!(buf.is_empty());
}

#[test]
fn encoded_map_waits_at_every_cut_and_reads_back_with_marked_keys() {
    let mut map = RespMap::new();
    map.insert("k".to_string(), RespFrame::Integer(1));
    map.insert(
        "a b".to_string(),
        RespFrame::SimpleString(SimpleString::new("OK".to_string())),
    );
    let wire = RespFrame::Mapping(map).encode();
    assert_eq!(wire, b"%2\r\n+a b+\r\n+OK+\r\n+k+\r\n:+1\r\n");
    for cut in 0..wire.len() {
        let mut buf = filled(&wire[..cut]);
        assert_eq!(RespFrame::decode(&mut buf), Err(RespError::NotComplete));
        assert_eq!(&buf[..], &wire[..cut]);
    }
    let mut expect = RespMap::new();
    expect.insert("k+".to_string(), RespFrame::Integer(1));
    expect.insert(
        "a b+".to_string(),
        RespFrame::SimpleString(SimpleString::new("OK+".to_string())),
    );
    let mut buf = filled(&wire);
    buf.extend_from_slice(b"#t\r\n");
    assert_eq!(RespFrame::decode(&mut buf), Ok(RespFrame::Mapping(expect)));
    assert_eq!(&buf[..], b"#t\r\n");
}

#[test]
fn many_descending_keys_end_in_ascending_order() {
    let mut map = RespMap::new();
    for n in (0..2000).rev() {
        map.insert(format!("{:05}", n), RespFrame::Integer(n));
    }
    for n in 0..2000 {
        map.insert(format!("{:05}", n), RespFrame::Integer(n + 1));
    }
    assert_eq!(map.len(), 2000);
    for at in 0..2000 {
        assert_eq!(map.key_at(at), &format!("{:05}", at));
        assert_eq!(map.value_at(at), &RespFrame::Integer(at as i64 + 1));
    }
    assert_eq!(map.as_entries().len(), 2000);
}

#[test]
fn connection_steps_wait_then_hand_out_then_fail() {
    let mut buf = BytesMut::new();
    write_frame(get_hello(), &mut buf);
    write_frame(RespFrame::Integer(5), &mut buf);
    assert_eq!(&buf[..], b"*2\r\n$3\r\nget\r\n$5\r\nhello\r\n:+5\r\n");
    let rest = buf.split_off(10);
    assert_eq!(next_frame(&mut buf), Ok(None));
    assert_eq!(buf.len(), 10);
    buf.extend_from_slice(&rest);
    assert_eq!(next_frame(&mut buf), Ok(Some(get_hello())));
    assert_eq!(next_frame(&mut buf), Ok(Some(RespFrame::Integer(5))));
    assert_eq!(next_frame(&mut buf), Ok(None));
    buf.extend_from_slice(b"?");
    assert_eq!(
        next_frame(&mut buf),
        Err(RespError::InvalidFrameType("?".to_string()))
    );
    assert_eq!(&buf[..], b"?");
}
