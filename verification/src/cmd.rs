//! The command layer's decisions: which command a request frame names, with
//! which arguments, and what frame answers it. Looking a key up and storing
//! a value are left to the caller, who owns the store.

use crate::frame::array_view;
use crate::frame::entries_view;
use crate::frame::entries_view_at;
use crate::frame::frames_view_push;
use crate::map::put;
use crate::frame::RespArray;
use crate::map::RespMap;
use crate::frame::frames_view;
use crate::frame::frames_view_at;
use crate::frame::BulkString;
use crate::frame::FrameView;
use crate::frame::RespFrame;
use crate::frame::RespNull;
use crate::frame::SimpleString;
use vstd::prelude::*;
use vstd::slice::slice_to_vec;
use vstd::string::*;
use vstd::utf8::*;

verus! {

/// Why a request frame is no command.
pub enum CommandFault {
    /// The frame is no array with a bulk string in front.
    InvalidCommand,
    /// The command has the wrong number or kind of arguments.
    InvalidArguments,
    /// An argument that must be text is not UTF-8.
    InvalidText,
}

/// Why a request was refused, with a message for the client.
#[derive(Debug, PartialEq)]
pub enum CommandError {
    InvalidCommand(String),
    InvalidArguments(String),
    InvalidText,
}

impl CommandError {
    /// Whether this error is the report of `fault`, with the message that
    /// goes with it.
    pub open spec fn reports(&self, fault: CommandFault) -> bool {
        match (self, fault) {
            (CommandError::InvalidCommand(message), CommandFault::InvalidCommand) => message@
                == "Invalid command"@,
            (CommandError::InvalidArguments(message), CommandFault::InvalidArguments) => message@
                == "Invalid arguments"@,
            (CommandError::InvalidText, CommandFault::InvalidText) => true,
            _ => false,
        }
    }
}

/// `GET key`.
#[derive(Debug, PartialEq)]
pub struct Get {
    pub key: String,
}

/// `SET key value`.
#[derive(Debug, PartialEq)]
pub struct SetValue {
    pub key: String,
    pub value: RespFrame,
}

/// `ECHO text`.
#[derive(Debug, PartialEq)]
pub struct Echo {
    pub value: String,
}

/// `HGET key field`.
#[derive(Debug, PartialEq)]
pub struct HGet {
    pub key: String,
    pub field: String,
}

/// `HSET key field value`.
#[derive(Debug, PartialEq)]
pub struct HSet {
    pub key: String,
    pub field: String,
    pub value: RespFrame,
}

/// `HGETALL key`. With `sort` the fields are answered in ascending order.
#[derive(Debug, PartialEq)]
pub struct HGetAll {
    pub key: String,
    pub sort: bool,
}

/// A command that the server does not know. It is answered, not refused.
#[derive(Debug, PartialEq)]
pub struct Unrecognized {}

/// A request that the server understands, or knows not to understand.
#[derive(Debug, PartialEq)]
pub enum Command {
    Get(Get),
    SetValue(SetValue),
    Echo(Echo),
    HGet(HGet),
    HSet(HSet),
    HGetAll(HGetAll),
    Unrecognized(Unrecognized),
}

/// What a command is, as a mathematical value.
pub enum CommandView {
    Get(Seq<char>),
    SetValue(Seq<char>, FrameView),
    Echo(Seq<char>),
    HGet(Seq<char>, Seq<char>),
    HSet(Seq<char>, Seq<char>, FrameView),
    HGetAll(Seq<char>, bool),
    Unrecognized,
}

impl Command {
    /// The value that this command stands for.
    pub open spec fn view(&self) -> CommandView {
        match self {
            Command::Get(get) => CommandView::Get(get.key@),
            Command::SetValue(set) => CommandView::SetValue(set.key@, set.value@),
            Command::Echo(echo) => CommandView::Echo(echo.value@),
            Command::HGet(hget) => CommandView::HGet(hget.key@, hget.field@),
            Command::HSet(hset) => CommandView::HSet(hset.key@, hset.field@, hset.value@),
            Command::HGetAll(all) => CommandView::HGetAll(all.key@, all.sort),
            Command::Unrecognized(_) => CommandView::Unrecognized,
        }
    }
}

/// An ASCII capital as its small letter; any other byte as itself.
pub open spec fn lower(byte: u8) -> u8 {
    if 65 <= byte <= 90 {
        (byte + 32) as u8
    } else {
        byte
    }
}

/// Whether `name` spells `word`, capitals counting as small letters.
pub open spec fn spells(name: Seq<u8>, word: Seq<u8>) -> bool {
    name.len() == word.len() && forall|i: int| 0 <= i < name.len() ==> lower(#[trigger] name[i])
        == word[i]
}

/// The bytes of `get`.
pub open spec fn word_get() -> Seq<u8> {
    seq![103u8, 101u8, 116u8]
}

/// The bytes of `set`.
pub open spec fn word_set() -> Seq<u8> {
    seq![115u8, 101u8, 116u8]
}

/// The bytes of `echo`.
pub open spec fn word_echo() -> Seq<u8> {
    seq![101u8, 99u8, 104u8, 111u8]
}

/// The bytes of `hget`.
pub open spec fn word_hget() -> Seq<u8> {
    seq![104u8, 103u8, 101u8, 116u8]
}

/// The bytes of `hset`.
pub open spec fn word_hset() -> Seq<u8> {
    seq![104u8, 115u8, 101u8, 116u8]
}

/// The bytes of `hgetall`.
pub open spec fn word_hgetall() -> Seq<u8> {
    seq![104u8, 103u8, 101u8, 116u8, 97u8, 108u8, 108u8]
}

/// Two arguments that must both be text; the first fault counts.
pub open spec fn text_pair(first: FrameView, second: FrameView) -> Result<
    (Seq<char>, Seq<char>),
    CommandFault,
> {
    match text_argument(first) {
        Err(fault) => Err(fault),
        Ok(a) => match text_argument(second) {
            Err(fault) => Err(fault),
            Ok(b) => Ok((a, b)),
        },
    }
}

/// The text of an argument: the frame must be a bulk string, its bytes
/// UTF-8.
pub open spec fn text_argument(frame: FrameView) -> Result<Seq<char>, CommandFault> {
    match frame {
        FrameView::BulkString(data, _) => if valid_utf8(data) {
            Ok(decode_utf8(data))
        } else {
            Err(CommandFault::InvalidText)
        },
        _ => Err(CommandFault::InvalidArguments),
    }
}

/// The command that a request frame names. The frame must be an array that
/// is not null, with the command's name as a bulk string in front; `get`,
/// `echo` and `hgetall` take one argument, `set` and `hget` two, `hset`
/// three; any other name is answered as unrecognized.
pub open spec fn command_of(frame: FrameView) -> Result<CommandView, CommandFault> {
    match frame {
        FrameView::Array(elements, null) => if null || elements.len() == 0 {
            Err(CommandFault::InvalidCommand)
        } else {
            match elements[0] {
                FrameView::BulkString(name, _) => if spells(name, word_get()) {
                    if elements.len() != 2 {
                        Err(CommandFault::InvalidArguments)
                    } else {
                        match text_argument(elements[1]) {
                            Ok(key) => Ok(CommandView::Get(key)),
                            Err(fault) => Err(fault),
                        }
                    }
                } else if spells(name, word_set()) {
                    if elements.len() != 3 {
                        Err(CommandFault::InvalidArguments)
                    } else {
                        match text_argument(elements[1]) {
                            Ok(key) => Ok(CommandView::SetValue(key, elements[2])),
                            Err(fault) => Err(fault),
                        }
                    }
                } else if spells(name, word_echo()) {
                    if elements.len() != 2 {
                        Err(CommandFault::InvalidArguments)
                    } else {
                        match text_argument(elements[1]) {
                            Ok(text) => Ok(CommandView::Echo(text)),
                            Err(fault) => Err(fault),
                        }
                    }
                } else if spells(name, word_hget()) {
                    if elements.len() != 3 {
                        Err(CommandFault::InvalidArguments)
                    } else {
                        match text_pair(elements[1], elements[2]) {
                            Ok((key, field)) => Ok(CommandView::HGet(key, field)),
                            Err(fault) => Err(fault),
                        }
                    }
                } else if spells(name, word_hset()) {
                    if elements.len() != 4 {
                        Err(CommandFault::InvalidArguments)
                    } else {
                        match text_pair(elements[1], elements[2]) {
                            Ok((key, field)) => Ok(CommandView::HSet(key, field, elements[3])),
                            Err(fault) => Err(fault),
                        }
                    }
                } else if spells(name, word_hgetall()) {
                    if elements.len() != 2 {
                        Err(CommandFault::InvalidArguments)
                    } else {
                        match text_argument(elements[1]) {
                            Ok(key) => Ok(CommandView::HGetAll(key, false)),
                            Err(fault) => Err(fault),
                        }
                    }
                } else {
                    Ok(CommandView::Unrecognized)
                },
                _ => Err(CommandFault::InvalidCommand),
            }
        },
        _ => Err(CommandFault::InvalidCommand),
    }
}

/// `String::from_utf8`. Believed, not proved: bytes that are valid UTF-8
/// give the text they encode, and any other bytes give nothing.
#[verifier::external_body]
fn strict_text(bytes: Vec<u8>) -> (text: Option<String>)
    ensures
        text is Some <==> valid_utf8(bytes@),
        text is Some ==> text->Some_0@ == decode_utf8(bytes@),
{
    String::from_utf8(bytes).ok()
}

/// Whether `name` spells `word`, capitals counting as small letters.
pub fn name_is(name: &[u8], word: &[u8]) -> (yes: bool)
    ensures
        yes == spells(name@, word@),
{
    if name.len() != word.len() {
        return false;
    }
    let mut i: usize = 0;
    while i < name.len()
        invariant
            i <= name.len(),
            name.len() == word.len(),
            forall|k: int| 0 <= k < i ==> lower(#[trigger] name@[k]) == word@[k],
        decreases name.len() - i,
    {
        let byte: u8 = name[i];
        let small: u8 = if 65 <= byte && byte <= 90 {
            byte + 32
        } else {
            byte
        };
        if small != word[i] {
            return false;
        }
        i = i + 1;
    }
    true
}

/// Reads an argument that must be text.
fn take_text(frame: RespFrame) -> (text: Result<String, CommandError>)
    ensures
        match text_argument(frame@) {
            Ok(value) => text is Ok && text->Ok_0@ == value,
            Err(fault) => text is Err && text->Err_0.reports(fault),
        },
{
    match frame {
        RespFrame::BulkString(bulk) => match strict_text(bulk.0) {
            Some(text) => Ok(text),
            None => Err(CommandError::InvalidText),
        },
        _ => Err(CommandError::InvalidArguments("Invalid arguments".to_string())),
    }
}

impl Command {
    /// Reads the command that a request frame names.
    pub fn try_from(frame: RespFrame) -> (command: Result<Command, CommandError>)
        ensures
            match command_of(frame@) {
                Ok(view) => command is Ok && command->Ok_0@ == view,
                Err(fault) => command is Err && command->Err_0.reports(fault),
            },
    {
        let array = match frame {
            RespFrame::Array(array) => array,
            _ => {
                return Err(CommandError::InvalidCommand("Invalid command".to_string()));
            },
        };
        proof {
            array_view(array);
            frames_view_at(array.0@);
        }
        if array.1 || array.0.len() == 0 {
            return Err(CommandError::InvalidCommand("Invalid command".to_string()));
        }
        let mut items = array.0;
        let ghost all = items@;
        let count = items.len();
        let get: Vec<u8> = vec![103u8, 101u8, 116u8];
        let set: Vec<u8> = vec![115u8, 101u8, 116u8];
        let echo: Vec<u8> = vec![101u8, 99u8, 104u8, 111u8];
        let hget: Vec<u8> = vec![104u8, 103u8, 101u8, 116u8];
        let hset: Vec<u8> = vec![104u8, 115u8, 101u8, 116u8];
        let hgetall: Vec<u8> = vec![104u8, 103u8, 101u8, 116u8, 97u8, 108u8, 108u8];
        proof {
            assert(get@ =~= word_get());
            assert(set@ =~= word_set());
            assert(echo@ =~= word_echo());
            assert(hget@ =~= word_hget());
            assert(hset@ =~= word_hset());
            assert(hgetall@ =~= word_hgetall());
        }
        let (is_get, is_set, is_echo, is_hget, is_hset, is_hgetall) = match &items[0] {
            RespFrame::BulkString(name) => (
                name_is(name.0.as_slice(), get.as_slice()),
                name_is(name.0.as_slice(), set.as_slice()),
                name_is(name.0.as_slice(), echo.as_slice()),
                name_is(name.0.as_slice(), hget.as_slice()),
                name_is(name.0.as_slice(), hset.as_slice()),
                name_is(name.0.as_slice(), hgetall.as_slice()),
            ),
            _ => {
                return Err(CommandError::InvalidCommand("Invalid command".to_string()));
            },
        };
        if is_get {
            if count != 2 {
                return Err(CommandError::InvalidArguments("Invalid arguments".to_string()));
            }
            let key = take_text(items.pop().unwrap())?;
            Ok(Command::Get(Get { key }))
        } else if is_set {
            if count != 3 {
                return Err(CommandError::InvalidArguments("Invalid arguments".to_string()));
            }
            let value = items.pop().unwrap();
            let key = take_text(items.pop().unwrap())?;
            Ok(Command::SetValue(SetValue { key, value }))
        } else if is_echo {
            if count != 2 {
                return Err(CommandError::InvalidArguments("Invalid arguments".to_string()));
            }
            let value = take_text(items.pop().unwrap())?;
            Ok(Command::Echo(Echo { value }))
        } else if is_hget {
            if count != 3 {
                return Err(CommandError::InvalidArguments("Invalid arguments".to_string()));
            }
            let second = items.pop().unwrap();
            let key = take_text(items.pop().unwrap())?;
            let field = take_text(second)?;
            Ok(Command::HGet(HGet { key, field }))
        } else if is_hset {
            if count != 4 {
                return Err(CommandError::InvalidArguments("Invalid arguments".to_string()));
            }
            let value = items.pop().unwrap();
            let second = items.pop().unwrap();
            let key = take_text(items.pop().unwrap())?;
            let field = take_text(second)?;
            Ok(Command::HSet(HSet { key, field, value }))
        } else if is_hgetall {
            if count != 2 {
                return Err(CommandError::InvalidArguments("Invalid arguments".to_string()));
            }
            let key = take_text(items.pop().unwrap())?;
            Ok(Command::HGetAll(HGetAll { key, sort: false }))
        } else {
            Ok(Command::Unrecognized(Unrecognized {  }))
        }
    }
}

/// The acknowledgment `OK`.
pub fn ok_reply() -> (reply: RespFrame)
    ensures
        reply@ == FrameView::SimpleString("OK"@),
{
    RespFrame::SimpleString(SimpleString("OK".to_string()))
}

/// The answer to a lookup: the frame that was found, or the scalar null.
pub fn lookup_reply(found: Option<RespFrame>) -> (reply: RespFrame)
    ensures
        match found {
            Some(frame) => reply == frame,
            None => reply@ == FrameView::Null,
        },
{
    match found {
        Some(frame) => frame,
        None => RespFrame::Null(RespNull),
    }
}

/// The answer to `ECHO`: the text as a bulk string.
pub fn echo_reply(echo: Echo) -> (reply: RespFrame)
    ensures
        reply@ == FrameView::BulkString(encode_utf8(echo.value@), false),
{
    RespFrame::BulkString(BulkString(slice_to_vec(echo.value.as_str().as_bytes()), false))
}

/// The first `n` fields as they are answered: each field's name as a bulk
/// string, then its frame.
pub open spec fn flattened(fields: Seq<(Seq<char>, FrameView)>, n: nat) -> Seq<FrameView>
    decreases n,
{
    if n == 0 || n > fields.len() {
        Seq::empty()
    } else {
        flattened(fields, (n - 1) as nat).push(
            FrameView::BulkString(encode_utf8(fields[n - 1].0), false),
        ).push(fields[n - 1].1)
    }
}

/// The fields in ascending order: each is set in turn in `done`, the last
/// field first.
pub open spec fn gathered(
    fields: Seq<(Seq<char>, FrameView)>,
    done: Seq<(Seq<char>, FrameView)>,
) -> Seq<(Seq<char>, FrameView)>
    decreases fields.len(),
{
    if fields.len() == 0 {
        done
    } else {
        gathered(fields.drop_last(), put(done, fields.last().0, fields.last().1))
    }
}

/// Copies fields into the frames that answer them.
pub fn flatten(fields: &Vec<(String, RespFrame)>) -> (frames: Vec<RespFrame>)
    ensures
        frames_view(frames@) == flattened(entries_view(fields@), fields@.len()),
{
    let mut frames: Vec<RespFrame> = Vec::new();
    proof {
        entries_view_at(fields@);
        frames_view_at(frames@);
        assert(frames_view(frames@) =~= flattened(entries_view(fields@), 0));
    }
    let mut i: usize = 0;
    while i < fields.len()
        invariant
            i <= fields.len(),
            entries_view(fields@).len() == fields@.len(),
            forall|k: int|
                0 <= k < fields@.len() ==> (#[trigger] entries_view(fields@)[k]) == (
                    fields@[k].0@,
                    fields@[k].1@,
                ),
            frames_view(frames@) == flattened(entries_view(fields@), i as nat),
        decreases fields.len() - i,
    {
        let name = RespFrame::BulkString(
            BulkString(slice_to_vec(fields[i].0.as_str().as_bytes()), false),
        );
        let value = fields[i].1.duplicate();
        proof {
            frames_view_push(frames@, name);
            frames_view_push(frames@.push(name), value);
            assert(entries_view(fields@)[i as int] == (fields@[i as int].0@, fields@[i as int].1@));
        }
        frames.push(name);
        frames.push(value);
        i = i + 1;
    }
    frames
}

/// The answer to `HGETALL`: an array of the fields, each name followed by
/// its frame; the empty array where the key holds no fields. With `sort`
/// the fields are put in ascending order of their names first.
pub fn hgetall_reply(found: Option<Vec<(String, RespFrame)>>, sort: bool) -> (reply: RespFrame)
    ensures
        reply@ == (match found {
            None => FrameView::Array(Seq::empty(), false),
            Some(fields) => {
                let shown = if sort {
                    gathered(entries_view(fields@), Seq::empty())
                } else {
                    entries_view(fields@)
                };
                FrameView::Array(flattened(shown, shown.len()), false)
            },
        }),
{
    let frames = match found {
        None => {
            let none: Vec<RespFrame> = Vec::new();
            proof {
                frames_view_at(none@);
                assert(frames_view(none@) =~= Seq::<FrameView>::empty());
            }
            none
        },
        Some(fields) => {
            proof {
                entries_view_at(fields@);
            }
            if sort {
                let mut left = fields;
                let mut map = RespMap::new();
                while left.len() > 0
                    invariant
                        gathered(entries_view(fields@), Seq::empty()) == gathered(
                            entries_view(left@),
                            map.entries(),
                        ),
                    decreases left@.len(),
                {
                    let ghost before = left@;
                    proof {
                        entries_view_at(before);
                    }
                    let (name, value) = left.pop().unwrap();
                    proof {
                        entries_view_at(left@);
                        assert(entries_view(left@) =~= entries_view(before).drop_last());
                        assert(entries_view(before).last() == (name@, value@));
                    }
                    map.insert(name, value);
                }
                let held = map.as_entries();
                proof {
                    entries_view_at(held@);
                }
                flatten(held)
            } else {
                flatten(&fields)
            }
        },
    };
    let array = RespArray(frames, false);
    proof {
        array_view(array);
    }
    RespFrame::Array(array)
}

} // verus!
