use vstd::prelude::*;

verus! {

/// An IPv4 address held as its four octets, most significant first.
#[derive(Debug, Clone, Copy, PartialEq, Eq, Structural)]
pub struct Ipv4Addr {
    pub o0: u8,
    pub o1: u8,
    pub o2: u8,
    pub o3: u8,
}

impl Ipv4Addr {
    /// Builds the address `a.b.c.d`.
    pub fn new(a: u8, b: u8, c: u8, d: u8) -> (r: Ipv4Addr)
        ensures
            r == (Ipv4Addr { o0: a, o1: b, o2: c, o3: d }),
    {
        Ipv4Addr { o0: a, o1: b, o2: c, o3: d }
    }

    /// Returns the four octets, most significant first.
    pub fn octets(&self) -> (r: [u8; 4])
        ensures
            r@ == seq![self.o0, self.o1, self.o2, self.o3],
    {
        let r = [self.o0, self.o1, self.o2, self.o3];
        proof {
            assert(r@ =~= seq![self.o0, self.o1, self.o2, self.o3]);
        }
        r
    }
}

} // verus!
