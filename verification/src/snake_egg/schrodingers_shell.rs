//! A piece of generated code that is kept in the local nest, in version
//! control, or in both, and leaves the nest when nobody has looked at it
//! for long.

use vstd::prelude::*;

verus! {

/// Where a piece is kept.
#[derive(Debug, Clone, Copy, PartialEq, Eq, Structural)]
pub enum QuantumState {
    /// In version control only.
    Ethereal,
    /// In the local nest, taken out of version control.
    Manifested,
    /// In both.
    Superposition,
    /// In the local nest only, never committed.
    Uncollapsed,
}

/// A piece with where it is kept; `last_observed` is in seconds since the
/// epoch.
#[derive(Debug)]
pub struct SchrodingersShell {
    pub egg_name: String,
    pub state: QuantumState,
    pub local_path: Option<String>,
    pub git_commit: Option<String>,
    pub last_observed: Option<u64>,
}

/// The whole hours from the time `last` to the time `now`, both in seconds
/// since the epoch.
pub open spec fn hours_idle(now: u64, last: u64) -> int {
    (now - last) / 3600
}

impl SchrodingersShell {
    /// A piece that is in the local nest only and was never looked at.
    pub fn new(egg_name: String) -> (r: SchrodingersShell)
        ensures
            r.egg_name == egg_name,
            r.state == QuantumState::Uncollapsed,
            r.local_path is None,
            r.git_commit is None,
            r.last_observed is None,
    {
        SchrodingersShell {
            egg_name,
            state: QuantumState::Uncollapsed,
            local_path: None,
            git_commit: None,
            last_observed: None,
        }
    }

    /// Whether the piece should leave the nest at the time `now`, in
    /// seconds since the epoch: it was looked at, more than
    /// `max_idle_hours` whole hours have passed since, and it is not in
    /// version control only. The time must not lie before the last look.
    pub fn should_evaporate(&self, max_idle_hours: u64, now: u64) -> (r: bool)
        requires
            self.last_observed matches Some(last) ==> last <= now,
        ensures
            r == (self.last_observed matches Some(last) && hours_idle(now, last) > max_idle_hours
                && self.state != QuantumState::Ethereal),
    {
        match self.last_observed {
            Some(last) => {
                let hours = (now - last) / 3600;
                hours > max_idle_hours && !matches!(self.state, QuantumState::Ethereal)
            },
            None => false,
        }
    }
}

} // verus!
