//! The stop flag shared by the search threads, as one thread sees it.
//!
//! Another thread raises the flag when the time is up, so what a read gives
//! is an outside input. Each read that finds the flag raised is counted, and
//! reading is the only way the count grows.

use std::sync::Arc;
use std::sync::atomic::AtomicBool;
use vstd::prelude::*;

verus! {

pub struct StopFlag {
    flag: Arc<AtomicBool>,
    seen: Ghost<nat>,
    raised: Ghost<nat>,
}

impl StopFlag {
    /// How many reads so far found the flag raised.
    pub closed spec fn seen(&self) -> nat {
        self.seen@
    }

    /// How many times this handle raised the flag.
    pub closed spec fn raised(&self) -> nat {
        self.raised@
    }

    /// The shared flag read.
    pub closed spec fn flag(&self) -> Arc<AtomicBool> {
        self.flag
    }

    pub fn new(flag: Arc<AtomicBool>) -> (s: Self)
        ensures
            s.seen() == 0,
            s.raised() == 0,
            s.flag() == flag,
    {
        StopFlag { flag, seen: Ghost(0), raised: Ghost(0) }
    }

    /// Read the flag (a relaxed atomic load); a raised flag is counted.
    pub fn stopped(&mut self) -> (r: bool)
        ensures
            final(self).seen() == old(self).seen() + if r {
                1nat
            } else {
                0nat
            },
            final(self).flag() == old(self).flag(),
            final(self).raised() == old(self).raised(),
    {
        let r = self.flag.load(std::sync::atomic::Ordering::Relaxed);
        if r {
            self.seen = Ghost(self.seen@ + 1);
        }
        r
    }

    /// Raise the flag for every thread (a relaxed atomic store); counted.
    pub fn raise(&mut self)
        ensures
            final(self).raised() == old(self).raised() + 1,
            final(self).seen() == old(self).seen(),
            final(self).flag() == old(self).flag(),
    {
        self.flag.store(true, std::sync::atomic::Ordering::Relaxed);
        self.raised = Ghost(self.raised@ + 1);
    }
}

} // verus!
