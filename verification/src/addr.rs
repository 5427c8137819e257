//! Plain address types: MAC addresses and IPv4 addresses.

use vstd::prelude::*;

verus! {

/// A 48-bit hardware (MAC) address, stored as six octets, most significant
/// first.
#[derive(Clone, Copy, PartialEq, Eq, Structural, Debug)]
pub struct MacAddr {
    pub b0: u8,
    pub b1: u8,
    pub b2: u8,
    pub b3: u8,
    pub b4: u8,
    pub b5: u8,
}

impl MacAddr {
    /// The six octets as a sequence, most significant first.
    pub open spec fn octets(self) -> Seq<u8> {
        seq![self.b0, self.b1, self.b2, self.b3, self.b4, self.b5]
    }

    pub fn new(b0: u8, b1: u8, b2: u8, b3: u8, b4: u8, b5: u8) -> (m: MacAddr)
        ensures
            m == (MacAddr { b0, b1, b2, b3, b4, b5 }),
    {
        MacAddr { b0, b1, b2, b3, b4, b5 }
    }
}

/// An IPv4 address, stored as four octets in network order.
#[derive(Clone, Copy, PartialEq, Eq, Structural, Debug)]
pub struct Ipv4Addr {
    pub o0: u8,
    pub o1: u8,
    pub o2: u8,
    pub o3: u8,
}

impl Ipv4Addr {
    pub fn new(o0: u8, o1: u8, o2: u8, o3: u8) -> (a: Ipv4Addr)
        ensures
            a == (Ipv4Addr { o0, o1, o2, o3 }),
    {
        Ipv4Addr { o0, o1, o2, o3 }
    }
}

} // verus!
