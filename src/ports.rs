use vstd::prelude::*;

verus! {

/// The first port handed out to a backend.
pub const FIRST_PORT: u16 = 8000;

/// Hands out backend ports from a counter that only moves forward: a port
/// is never handed out twice and freed ports are not reclaimed.
pub struct PortAllocator {
    pub next_port: u16,
}

impl PortAllocator {
    pub fn new() -> (r: Self)
        ensures
            r.next_port == FIRST_PORT,
    {
        PortAllocator { next_port: FIRST_PORT }
    }

    /// Whether another port can be handed out before the range is used up.
    pub fn can_allocate(&self) -> (r: bool)
        ensures
            r == (self.next_port < u16::MAX),
    {
        self.next_port < u16::MAX
    }

    /// Hands out the next port and moves the counter past it.
    pub fn allocate(&mut self) -> (r: u16)
        requires
            old(self).next_port < u16::MAX,
        ensures
            r == old(self).next_port,
            final(self).next_port == old(self).next_port + 1,
    {
        let r = self.next_port;
        self.next_port = self.next_port + 1;
        r
    }
}

} // verus!
