use simple_redis::cmd::echo_reply;
use simple_redis::cmd::flatten;
use simple_redis::cmd::hgetall_reply;
use simple_redis::cmd::lookup_reply;
use simple_redis::cmd::name_is;
use simple_redis::cmd::ok_reply;
use simple_redis::BulkString;
use simple_redis::Command;
use simple_redis::CommandError;
use simple_redis::Echo;
use simple_redis::Get;
use simple_redis::HGet;
use simple_redis::HGetAll;
use simple_redis::HSet;
use simple_redis::RespArray;
use simple_redis::RespDecode;
use simple_redis::RespEncode;
use simple_redis::RespFrame;
use simple_redis::RespNull;
use simple_redis::SetValue;
use simple_redis::SimpleString;
use simple_redis::Unrecognized;

fn request(parts: &[&[u8]]) -> RespFrame {
    RespFrame::Array(RespArray::new(
        parts
            .iter()
            .map(|part| RespFrame::BulkString(BulkString::new(part.to_vec())))
            .collect(),
    ))
}

#[test]
fn get_takes_one_key() {
    assert_eq!(
        Command::try_from(request(&[b"get", b"hello"])),
        Ok(Command::Get(Get {
            key: "hello".to_string()
        }))
    );
    assert_eq!(
        Command::try_from(request(&[b"GeT", b"k"])),
        Ok(Command::Get(Get {
            key: "k".to_string()
        }))
    );
    assert_eq!(
        Command::try_from(request(&[b"get"])),
        Err(CommandError::InvalidArguments(
            "Invalid arguments".to_string()
        ))
    );
    assert_eq!(
        Command::try_from(request(&[b"get", b"a", b"b"])),
        Err(CommandError::InvalidArguments(
            "Invalid arguments".to_string()
        ))
    );
}

#[test]
fn request_off_the_wire_is_a_command() {
    let mut buf = bytes::BytesMut::new();
    buf.extend_from_slice(b"*2\r\n$3\r\nget\r\n$5\r\nhello\r\n");
    let frame = RespFrame::decode(&mut buf).unwrap();
    assert_eq!(
        Command::try_from(frame),
        Ok(Command::Get(Get {
            key: "hello".to_string()
        }))
    );
}

#[test]
fn set_takes_key_and_any_frame() {
    let frame = RespFrame::Array(RespArray::new(vec![
        RespFrame::BulkString(BulkString::new(b"SET".to_vec())),
        RespFrame::BulkString(BulkString::new(b"k".to_vec())),
        RespFrame::Integer(7),
    ]));
    assert_eq!(
        Command::try_from(frame),
        Ok(Command::SetValue(SetValue {
            key: "k".to_string(),
            value: RespFrame::Integer(7)
        }))
    );
    assert_eq!(
        Command::try_from(request(&[b"set", b"k"])),
        Err(CommandError::InvalidArguments(
            "Invalid arguments".to_string()
        ))
    );
}

#[test]
fn echo_takes_text() {
    assert_eq!(
        Command::try_from(request(&[b"echo", b"hi"])),
        Ok(Command::Echo(Echo {
            value: "hi".to_string()
        }))
    );
    assert_eq!(
        echo_reply(Echo {
            value: "hi".to_string()
        })
        .encode(),
        b"$2\r\nhi\r\n"
    );
}

#[test]
fn key_must_be_a_bulk_string_of_text() {
    let frame = RespFrame::Array(RespArray::new(vec![
        RespFrame::BulkString(BulkString::new(b"get".to_vec())),
        RespFrame::Integer(1),
    ]));
    assert_eq!(
        Command::try_from(frame),
        Err(CommandError::InvalidArguments(
            "Invalid arguments".to_string()
        ))
    );
    assert_eq!(
        Command::try_from(request(&[b"get", b"\xff\xfe"])),
        Err(CommandError::InvalidText)
    );
}

#[test]
fn unknown_names_are_answered() {
    assert_eq!(
        Command::try_from(request(&[b"ping"])),
        Ok(Command::Unrecognized(Unrecognized {}))
    );
    assert_eq!(
        Command::try_from(request(&[b"gets", b"k"])),
        Ok(Command::Unrecognized(Unrecognized {}))
    );
    assert_eq!(ok_reply().encode(), b"+OK+\r\n");
    assert_eq!(
        ok_reply(),
        RespFrame::SimpleString(SimpleString::new("OK".to_string()))
    );
}

#[test]
fn what_is_no_request_is_refused() {
    let invalid = Err(CommandError::InvalidCommand("Invalid command".to_string()));
    assert_eq!(Command::try_from(RespFrame::Integer(1)), invalid);
    assert_eq!(
        Command::try_from(RespFrame::Array(RespArray::nill_new())),
        invalid
    );
    assert_eq!(
        Command::try_from(RespFrame::Array(RespArray::new(Vec::new()))),
        invalid
    );
    assert_eq!(
        Command::try_from(RespFrame::Array(RespArray::new(vec![RespFrame::Bool(
            true
        )]))),
        invalid
    );
}

#[test]
fn lookup_answers_with_the_frame_or_null() {
    assert_eq!(
        lookup_reply(Some(RespFrame::Integer(3))),
        RespFrame::Integer(3)
    );
    assert_eq!(lookup_reply(None), RespFrame::Null(RespNull));
}

#[test]
fn names_compare_without_case() {
    assert!(name_is(b"GET", b"get"));
    assert!(name_is(b"get", b"get"));
    assert!(!name_is(b"get", b"GET"));
    assert!(!name_is(b"ge", b"get"));
    assert!(!name_is(b"g\x45\x54!", b"get"));
    assert!(!name_is(b"[et", b"{et"));
}

#[test]
fn hash_commands_take_key_and_field() {
    assert_eq!(
        Command::try_from(request(&[b"hget", b"k", b"f"])),
        Ok(Command::HGet(HGet {
            key: "k".to_string(),
            field: "f".to_string()
        }))
    );
    let frame = RespFrame::Array(RespArray::new(vec![
        RespFrame::BulkString(BulkString::new(b"HSET".to_vec())),
        RespFrame::BulkString(BulkString::new(b"k".to_vec())),
        RespFrame::BulkString(BulkString::new(b"f".to_vec())),
        RespFrame::Bool(true),
    ]));
    assert_eq!(
        Command::try_from(frame),
        Ok(Command::HSet(HSet {
            key: "k".to_string(),
            field: "f".to_string(),
            value: RespFrame::Bool(true)
        }))
    );
    assert_eq!(
        Command::try_from(request(&[b"hgetall", b"k"])),
        Ok(Command::HGetAll(HGetAll {
            key: "k".to_string(),
            sort: false
        }))
    );
    assert_eq!(
        Command::try_from(request(&[b"hget", b"k"])),
        Err(CommandError::InvalidArguments(
            "Invalid arguments".to_string()
        ))
    );
    assert_eq!(
        Command::try_from(request(&[b"hget", b"k", b"\xff"])),
        Err(CommandError::InvalidText)
    );
}

#[test]
fn hgetall_answers_names_and_frames() {
    let fields = || {
        vec![
            ("b".to_string(), RespFrame::Integer(2)),
            ("c".to_string(), RespFrame::Integer(3)),
            ("a".to_string(), RespFrame::Integer(1)),
        ]
    };
    assert_eq!(
        hgetall_reply(Some(fields()), false).encode(),
        b"*6\r\n$1\r\nb\r\n:+2\r\n$1\r\nc\r\n:+3\r\n$1\r\na\r\n:+1\r\n"
    );
    assert_eq!(
        hgetall_reply(Some(fields()), true).encode(),
        b"*6\r\n$1\r\na\r\n:+1\r\n$1\r\nb\r\n:+2\r\n$1\r\nc\r\n:+3\r\n"
    );
    assert_eq!(hgetall_reply(None, true).encode(), b"*0\r\n");
    assert_eq!(hgetall_reply(Some(Vec::new()), false).encode(), b"*0\r\n");
    assert_eq!(
        flatten(&fields())[..2],
        [
            RespFrame::BulkString(BulkString::new(b"b".to_vec())),
            RespFrame::Integer(2)
        ]
    );
}

#[test]
fn copies_are_equal() {
    let frame = request(&[b"set", b"k", b"v"]);
    assert_eq!(frame.clone(), frame);
    assert_eq!(frame.duplicate(), frame);
    let mut buf = bytes::BytesMut::new();
    buf.extend_from_slice(&frame.clone().encode());
    assert_eq!(RespFrame::decode(&mut buf), Ok(frame));
}
