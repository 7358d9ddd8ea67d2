//! Every kind of value turns into a frame, losing nothing.

use crate::frame::BulkString;
use crate::frame::RespArray;
use crate::frame::RespDouble;
use crate::frame::RespFrame;
use crate::map::RespMap;
use crate::frame::RespNull;
use crate::frame::RespSet;
use crate::frame::SimpleError;
use crate::frame::SimpleString;
use vstd::prelude::*;

verus! {

impl From<SimpleString> for RespFrame {
    fn from(value: SimpleString) -> (frame: RespFrame) {
        RespFrame::SimpleString(value)
    }
}

impl vstd::std_specs::convert::FromSpecImpl<SimpleString> for RespFrame {
    open spec fn obeys_from_spec() -> bool {
        true
    }

    open spec fn from_spec(value: SimpleString) -> RespFrame {
        RespFrame::SimpleString(value)
    }
}

impl From<SimpleError> for RespFrame {
    fn from(value: SimpleError) -> (frame: RespFrame) {
        RespFrame::SimpleError(value)
    }
}

impl vstd::std_specs::convert::FromSpecImpl<SimpleError> for RespFrame {
    open spec fn obeys_from_spec() -> bool {
        true
    }

    open spec fn from_spec(value: SimpleError) -> RespFrame {
        RespFrame::SimpleError(value)
    }
}

impl From<RespNull> for RespFrame {
    fn from(value: RespNull) -> (frame: RespFrame) {
        RespFrame::Null(value)
    }
}

impl vstd::std_specs::convert::FromSpecImpl<RespNull> for RespFrame {
    open spec fn obeys_from_spec() -> bool {
        true
    }

    open spec fn from_spec(value: RespNull) -> RespFrame {
        RespFrame::Null(value)
    }
}

impl From<RespDouble> for RespFrame {
    fn from(value: RespDouble) -> (frame: RespFrame) {
        RespFrame::Double(value)
    }
}

impl vstd::std_specs::convert::FromSpecImpl<RespDouble> for RespFrame {
    open spec fn obeys_from_spec() -> bool {
        true
    }

    open spec fn from_spec(value: RespDouble) -> RespFrame {
        RespFrame::Double(value)
    }
}

impl From<BulkString> for RespFrame {
    fn from(value: BulkString) -> (frame: RespFrame) {
        RespFrame::BulkString(value)
    }
}

impl vstd::std_specs::convert::FromSpecImpl<BulkString> for RespFrame {
    open spec fn obeys_from_spec() -> bool {
        true
    }

    open spec fn from_spec(value: BulkString) -> RespFrame {
        RespFrame::BulkString(value)
    }
}

impl From<RespArray> for RespFrame {
    fn from(value: RespArray) -> (frame: RespFrame) {
        RespFrame::Array(value)
    }
}

impl vstd::std_specs::convert::FromSpecImpl<RespArray> for RespFrame {
    open spec fn obeys_from_spec() -> bool {
        true
    }

    open spec fn from_spec(value: RespArray) -> RespFrame {
        RespFrame::Array(value)
    }
}

impl From<RespMap> for RespFrame {
    fn from(value: RespMap) -> (frame: RespFrame) {
        RespFrame::Mapping(value)
    }
}

impl vstd::std_specs::convert::FromSpecImpl<RespMap> for RespFrame {
    open spec fn obeys_from_spec() -> bool {
        true
    }

    open spec fn from_spec(value: RespMap) -> RespFrame {
        RespFrame::Mapping(value)
    }
}

impl From<RespSet> for RespFrame {
    fn from(value: RespSet) -> (frame: RespFrame) {
        RespFrame::Members(value)
    }
}

impl vstd::std_specs::convert::FromSpecImpl<RespSet> for RespFrame {
    open spec fn obeys_from_spec() -> bool {
        true
    }

    open spec fn from_spec(value: RespSet) -> RespFrame {
        RespFrame::Members(value)
    }
}

impl From<bool> for RespFrame {
    fn from(value: bool) -> (frame: RespFrame) {
        RespFrame::Bool(value)
    }
}

impl vstd::std_specs::convert::FromSpecImpl<bool> for RespFrame {
    open spec fn obeys_from_spec() -> bool {
        true
    }

    open spec fn from_spec(value: bool) -> RespFrame {
        RespFrame::Bool(value)
    }
}

impl From<i64> for RespFrame {
    fn from(value: i64) -> (frame: RespFrame) {
        RespFrame::Integer(value)
    }
}

impl vstd::std_specs::convert::FromSpecImpl<i64> for RespFrame {
    open spec fn obeys_from_spec() -> bool {
        true
    }

    open spec fn from_spec(value: i64) -> RespFrame {
        RespFrame::Integer(value)
    }
}

} // verus!
