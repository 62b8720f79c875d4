//! The reply to a verb this server does not know.

use vstd::prelude::*;

use crate::frame::{Frame, FrameView};

verus! {

/// Stands for a command this server does not implement.
#[derive(Debug)]
pub struct Unknown {
    pub command_name: Vec<u8>,
}

/// The bytes of `ERR unknown command '<name>'`.
pub open spec fn unknown_msg(name: Seq<u8>) -> Seq<u8> {
    err_prefix() + name + seq![39u8]
}

/// The bytes of `ERR unknown command '`.
pub open spec fn err_prefix() -> Seq<u8> {
    seq![
        69u8, 82u8, 82u8, 32u8, 117u8, 110u8, 107u8, 110u8, 111u8, 119u8, 110u8, 32u8, 99u8,
        111u8, 109u8, 109u8, 97u8, 110u8, 100u8, 32u8, 39u8,
    ]
}

impl Unknown {
    pub fn new(key: Vec<u8>) -> (u: Unknown)
        ensures
            u.command_name@ == key@,
    {
        Unknown { command_name: key }
    }

    pub fn get_name(&self) -> (r: &Vec<u8>)
        ensures
            r@ == self.command_name@,
    {
        &self.command_name
    }

    /// Apply the command: an error frame naming the verb.
    pub fn apply(self) -> (resp: Frame)
        ensures
            resp@ == FrameView::Error(unknown_msg(self.command_name@)),
    {
        let ghost n = self.command_name@;
        let mut msg: Vec<u8> = Vec::new();
        msg.push(69);
        msg.push(82);
        msg.push(82);
        msg.push(32);
        msg.push(117);
        msg.push(110);
        msg.push(107);
        msg.push(110);
        msg.push(111);
        msg.push(119);
        msg.push(110);
        msg.push(32);
        msg.push(99);
        msg.push(111);
        msg.push(109);
        msg.push(109);
        msg.push(97);
        msg.push(110);
        msg.push(100);
        msg.push(32);
        msg.push(39);
        proof {
            assert(msg@ =~= err_prefix());
        }
        msg.extend_from_slice(self.command_name.as_slice());
        msg.push(39);
        proof {
            assert(msg@ =~= unknown_msg(n));
        }
        Frame::Error(msg)
    }
}

} // verus!
