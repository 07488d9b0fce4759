use vstd::prelude::*;

verus! {

/// A team and how many of its slots are taken.
#[derive(Debug)]
pub struct Team {
    pub name: String,
    pub max_clients: usize,
    pub connected: usize,
}

/// The team with one more slot taken.
pub open spec fn after_reserve(t: Team) -> Team {
    Team { connected: (t.connected + 1) as usize, ..t }
}

/// The team with one slot less taken.
pub open spec fn after_release(t: Team) -> Team {
    Team { connected: (t.connected - 1) as usize, ..t }
}

impl Team {
    /// A team of `max_clients` slots, all free.
    pub fn new(name: String, max_clients: usize) -> (team: Team)
        ensures
            team.name == name,
            team.max_clients == max_clients,
            team.connected == 0,
    {
        Team { name, max_clients, connected: 0 }
    }

    /// Takes a free slot; returns false, changing nothing, when none is free.
    pub fn reserve_slot(&mut self) -> (reserved: bool)
        ensures
            reserved == (old(self).connected < old(self).max_clients),
            reserved ==> *final(self) == after_reserve(*old(self)),
            !reserved ==> *final(self) == *old(self),
    {
        if self.connected < self.max_clients {
            self.connected = self.connected + 1;
            true
        } else {
            false
        }
    }

    /// Gives a taken slot back; does nothing when no slot is taken.
    pub fn release_slot(&mut self)
        ensures
            old(self).connected > 0 ==> *final(self) == after_release(*old(self)),
            old(self).connected == 0 ==> *final(self) == *old(self),
    {
        if self.connected > 0 {
            self.connected = self.connected - 1;
        }
    }
}

} // verus!
