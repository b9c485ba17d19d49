use vstd::prelude::*;

verus! {

/// A counter owned by its single user; no borrow can conflict with another.
pub struct SimpleCounter {
    value: i32,
}

impl View for SimpleCounter {
    type V = int;

    closed spec fn view(&self) -> int {
        self.value as int
    }
}

impl SimpleCounter {
    pub fn new() -> (r: SimpleCounter)
        ensures
            r@ == 0,
    {
        SimpleCounter { value: 0 }
    }

    pub fn increment(&mut self)
        requires
            old(self)@ < i32::MAX,
        ensures
            final(self)@ == old(self)@ + 1,
    {
        self.value = self.value + 1;
    }

    pub fn get(&self) -> (r: i32)
        ensures
            r == self@,
    {
        self.value
    }
}

/// Adds one to `counter`.
pub fn increment(counter: &mut SimpleCounter)
    requires
        old(counter)@ < i32::MAX,
    ensures
        final(counter)@ == old(counter)@ + 1,
{
    counter.increment();
}

/// The current value of `counter`.
pub fn get_value(counter: &SimpleCounter) -> (r: i32)
    ensures
        r == counter@,
{
    counter.get()
}

} // verus!
