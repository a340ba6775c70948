use vstd::prelude::*;

use crate::pb::message::{Ping, Pong};

verus! {

/// Which of its alternatives a `ClientMessage` holds.
#[allow(non_camel_case_types)]
#[derive(Debug, PartialEq, Eq, Clone, Copy, Structural)]
pub enum OneOfmsg {
    ping(Ping),
    pong(Pong),
    none,
}

impl Default for OneOfmsg {
    fn default() -> (r: OneOfmsg)
        ensures
            r == OneOfmsg::none,
    {
        OneOfmsg::none
    }
}

} // verus!
