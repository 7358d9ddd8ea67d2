//! A codec for the RESP wire protocol: typed frames, their byte-exact
//! encoding, and incremental decoding from a receive buffer.

pub mod buffer;
pub mod cmd;
pub mod codec;
pub mod convert;
pub mod decimal;
pub mod decode;
pub mod encode;
pub mod error;
pub mod fragments;
pub mod frame;
pub mod laws;
pub mod lines;
pub mod map;
pub mod order;
pub mod scan;
pub mod span;
pub mod text;

pub use cmd::Command;
pub use cmd::CommandError;
pub use cmd::Echo;
pub use cmd::Get;
pub use cmd::HGet;
pub use cmd::HGetAll;
pub use cmd::HSet;
pub use cmd::SetValue;
pub use cmd::Unrecognized;
pub use codec::RespDecode;
pub use codec::RespEncode;
pub use error::RespError;
pub use frame::BulkString;
pub use frame::RespArray;
pub use frame::RespDouble;
pub use frame::RespFrame;
pub use map::RespMap;
pub use frame::RespNull;
pub use frame::RespSet;
pub use frame::SimpleError;
pub use frame::SimpleString;
pub use scan::extract_fixed_data;
pub use scan::extract_simple_frame_data;
pub use scan::find_crlf;
pub use scan::parse_length;
pub use scan::parse_length_for_nullable;
pub use span::calc_total_length;
