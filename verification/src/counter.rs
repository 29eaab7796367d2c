//! A signed counter that can be stepped up, stepped down and reset.

use vstd::prelude::*;

verus! {

/// A counter holding a signed 32-bit value, starting at zero.
pub struct Counter {
    value: i32,
}

/// The value after one step up.
pub open spec fn stepped_up(v: int) -> int {
    v + 1
}

/// The value after one step down.
pub open spec fn stepped_down(v: int) -> int {
    v - 1
}

impl View for Counter {
    type V = int;

    closed spec fn view(&self) -> int {
        self.value as int
    }
}

impl Counter {
    /// A counter at zero.
    pub fn new() -> (c: Counter)
        ensures
            c@ == 0,
    {
        Counter { value: 0 }
    }

    /// Adds one and returns the new value.
    pub fn increment(&mut self) -> (v: i32)
        requires
            old(self)@ < i32::MAX,
        ensures
            final(self)@ == stepped_up(old(self)@),
            v == final(self)@,
    {
        self.value = self.value + 1;
        self.value
    }

    /// Subtracts one and returns the new value.
    pub fn decrement(&mut self) -> (v: i32)
        requires
            old(self)@ > i32::MIN,
        ensures
            final(self)@ == stepped_down(old(self)@),
            v == final(self)@,
    {
        self.value = self.value - 1;
        self.value
    }

    /// Sets the counter back to zero and returns the new value.
    pub fn reset(&mut self) -> (v: i32)
        ensures
            final(self)@ == 0,
            v == 0,
    {
        self.value = 0;
        self.value
    }

    /// The current value.
    pub fn value(&self) -> (v: i32)
        ensures
            v == self@,
    {
        self.value
    }
}

impl Default for Counter {
    /// A counter at zero.
    fn default() -> (c: Counter)
        ensures
            c@ == 0,
    {
        Counter::new()
    }
}

/// Law: a step down right after a step up gives the value back.
pub proof fn decrement_undoes_increment(v: int)
    ensures
        stepped_down(stepped_up(v)) == v,
{
}

/// Law: a step up right after a step down gives the value back.
pub proof fn increment_undoes_decrement(v: int)
    ensures
        stepped_up(stepped_down(v)) == v,
{
}

/// Law: `n` steps up from zero reach `n`, and `n` steps down reach `-n`.
pub proof fn steps_from_zero(n: nat)
    ensures
        steps_up(0, n) == n,
        steps_down(0, n) == -n,
    decreases n,
{
    if n > 0 {
        steps_from_zero((n - 1) as nat);
    }
}

/// The value after `n` steps up.
pub open spec fn steps_up(v: int, n: nat) -> int
    decreases n,
{
    if n == 0 {
        v
    } else {
        stepped_up(steps_up(v, (n - 1) as nat))
    }
}

/// The value after `n` steps down.
pub open spec fn steps_down(v: int, n: nat) -> int
    decreases n,
{
    if n == 0 {
        v
    } else {
        stepped_down(steps_down(v, (n - 1) as nat))
    }
}

} // verus!
