//! Kill switch. When engaged, no outbound traffic is allowed.

use vstd::prelude::*;

verus! {

/// A user-controlled switch that halts all outbound traffic.
#[derive(Debug)]
pub struct KillSwitch {
    flag: bool,
}

impl View for KillSwitch {
    type V = bool;

    /// Whether the switch is engaged.
    closed spec fn view(&self) -> bool {
        self.flag
    }
}

impl KillSwitch {
    /// A disengaged switch.
    pub fn new() -> (r: Self)
        ensures
            !r@,
    {
        KillSwitch { flag: false }
    }

    /// Halts all outbound traffic.
    pub fn engage(&mut self)
        ensures
            final(self)@,
    {
        self.flag = true;
    }

    /// Allows outbound traffic again.
    pub fn disengage(&mut self)
        ensures
            !final(self)@,
    {
        self.flag = false;
    }

    /// Whether traffic is currently halted.
    pub fn is_engaged(&self) -> (r: bool)
        ensures
            r == self@,
    {
        self.flag
    }
}

impl Default for KillSwitch {
    fn default() -> (r: Self)
        ensures
            !r@,
    {
        KillSwitch::new()
    }
}

} // verus!
