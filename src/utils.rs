//! Utilities

use std::time::{Duration, Instant};
use vstd::prelude::*;

verus! {

#[verifier::external_type_specification]
#[verifier::external_body]
pub struct ExInstant(Instant);

/// Relies on `Instant::now`: the current instant, of which nothing is known here.
pub assume_specification[ Instant::now ]() -> Instant;

/// Relies on `Instant::elapsed`: the time since the instant, of which nothing is known here.
pub assume_specification[ Instant::elapsed ](self_: &Instant) -> Duration;

/// Simple timer
#[derive(Debug)]
pub struct Timer {
    description: String,
    start: Instant,
}

impl Timer {
    /// What the timer measures
    pub closed spec fn label(&self) -> Seq<char> {
        self.description@
    }

    /// Create new timer
    pub fn new(description: &str) -> (r: Self)
        ensures
            r.label() == description@,
    {
        Self { description: description.to_owned(), start: Instant::now() }
    }

    /// Start/Restart the timer
    pub fn start(&mut self)
        ensures
            final(self).label() == old(self).label(),
    {
        self.start = Instant::now();
    }

    /// Read elapsed time
    pub fn read(&self) -> Duration {
        self.start.elapsed()
    }

    /// What the timer measures
    pub fn description(&self) -> (r: &str)
        ensures
            r@ == self.label(),
    {
        self.description.as_str()
    }
}

} // verus!
