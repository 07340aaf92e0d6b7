//! The demo counter: a count moved by the buttons of its panel.
use vstd::prelude::*;

verus! {

/// The count changed.
#[derive(Clone, Copy, Debug, PartialEq, Eq, Structural)]
pub enum CounterEvent {
    Updated { new_count: i32 },
}

/// The count shown on the panel.
#[derive(Clone, Copy, Debug, PartialEq, Eq, Structural)]
pub struct Counter {
    pub count: i32,
}

impl Default for Counter {
    fn default() -> (c: Counter)
        ensures
            c.count == 0,
    {
        Counter { count: 0 }
    }
}

impl Counter {
    /// A button moved the count by `delta`.
    pub fn apply(&mut self, delta: i32) -> (e: CounterEvent)
        requires
            i32::MIN <= old(self).count + delta <= i32::MAX,
        ensures
            final(self).count == old(self).count + delta,
            e == (CounterEvent::Updated { new_count: final(self).count }),
    {
        self.count = self.count + delta;
        CounterEvent::Updated { new_count: self.count }
    }
}

} // verus!
