//! The broadcaster's settings: where it listens and how many commits the
//! shared channel holds for subscribers that fall behind.

use vstd::prelude::*;

verus! {

/// How many commits the shared channel holds before a subscriber that does not
/// keep up starts to miss some.
pub const CHANNEL_CAPACITY: usize = 1000;

/// The largest capacity the channel accepts.
pub const MAX_CHANNEL_CAPACITY: usize = usize::MAX / 2;

/// Republishes every commit to all connected subscribers over one bounded
/// channel, listening for subscribers on `port`.
#[derive(Clone, Copy, Debug, PartialEq, Eq)]
pub struct CustomBroadcaster {
    port: u16,
    capacity: usize,
}

impl CustomBroadcaster {
    #[verifier::type_invariant]
    spec fn capacity_in_bounds(&self) -> bool {
        0 < self.capacity <= MAX_CHANNEL_CAPACITY
    }

    pub closed spec fn port_spec(&self) -> u16 {
        self.port
    }

    pub closed spec fn capacity_spec(&self) -> usize {
        self.capacity
    }

    /// A broadcaster on `port` with the default channel capacity.
    pub fn new(port: u16) -> (r: CustomBroadcaster)
        ensures
            r.port_spec() == port,
            r.capacity_spec() == CHANNEL_CAPACITY,
    {
        CustomBroadcaster { port, capacity: CHANNEL_CAPACITY }
    }

    /// A broadcaster on `port` whose channel holds `capacity` commits, or
    /// `None` when the channel cannot hold that many (none, or more than
    /// half the address space).
    pub fn with_capacity(port: u16, capacity: usize) -> (r: Option<CustomBroadcaster>)
        ensures
            (0 < capacity <= MAX_CHANNEL_CAPACITY) <==> r is Some,
            r matches Some(b) ==> b.port_spec() == port && b.capacity_spec() == capacity,
    {
        if capacity == 0 || capacity > MAX_CHANNEL_CAPACITY {
            None
        } else {
            Some(CustomBroadcaster { port, capacity })
        }
    }

    pub fn port(&self) -> (r: u16)
        ensures
            r == self.port_spec(),
    {
        self.port
    }

    /// How many commits the channel holds; always at least one.
    pub fn capacity(&self) -> (r: usize)
        ensures
            r == self.capacity_spec(),
            0 < r <= MAX_CHANNEL_CAPACITY,
    {
        proof {
            use_type_invariant(self);
        }
        self.capacity
    }
}

} // verus!
