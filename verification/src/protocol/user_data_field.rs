//! The optional user data of a packet: bytes that are carried, not read.

use vstd::prelude::*;
use vstd::slice::slice_to_vec;

verus! {

/// The user data of a packet.
#[derive(Clone, Debug, PartialEq, Eq)]
pub struct UserDataField {
    pub data: Vec<u8>,
}

impl View for UserDataField {
    type V = Seq<u8>;

    /// The bytes carried.
    open spec fn view(&self) -> Seq<u8> {
        self.data@
    }
}

impl UserDataField {
    /// Takes a copy of `buf` as user data.
    pub fn from_buffer(buf: &[u8]) -> (field: UserDataField)
        ensures
            field@ == buf@,
    {
        UserDataField { data: slice_to_vec(buf) }
    }

    /// A copy of the bytes carried.
    pub fn get_buffer(&self) -> (buf: Vec<u8>)
        ensures
            buf@ == self@,
    {
        self.data.clone()
    }
}

} // verus!
