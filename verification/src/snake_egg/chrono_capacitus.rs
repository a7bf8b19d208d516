//! The share of model calls that a piece of generated code gets, by its
//! maturity.

use crate::text::{owned, same_text};
use vstd::prelude::*;

verus! {

/// The models that can be called.
#[derive(Debug, Clone, Copy, PartialEq, Eq, Structural)]
pub enum GeminiModel {
    Flash2_0,
    Pro2_0,
    Flash2_5,
    Pro2_5,
}

/// What one piece of generated code may use: a model, the seconds to wait
/// between two calls, the most tokens for one call, and a priority from 1
/// to 10.
#[derive(Debug, Clone, Copy, PartialEq, Eq, Structural)]
pub struct ChronoCapacitus {
    pub model: GeminiModel,
    pub api_call_interval_seconds: u64,
    pub max_tokens_per_call: usize,
    pub priority_level: u8,
}

/// The name under which a model is called.
pub open spec fn api_name_spec(m: GeminiModel) -> Seq<char> {
    match m {
        GeminiModel::Flash2_0 => "gemini-2.0-flash-exp"@,
        GeminiModel::Pro2_0 => "gemini-2.0-pro"@,
        GeminiModel::Flash2_5 => "gemini-2.5-flash"@,
        GeminiModel::Pro2_5 => "gemini-2.5-pro"@,
    }
}

impl GeminiModel {
    /// The name under which the model is called.
    pub fn api_name(&self) -> (r: &'static str)
        ensures
            r@ == api_name_spec(*self),
    {
        match self {
            GeminiModel::Flash2_0 => "gemini-2.0-flash-exp",
            GeminiModel::Pro2_0 => "gemini-2.0-pro",
            GeminiModel::Flash2_5 => "gemini-2.5-flash",
            GeminiModel::Pro2_5 => "gemini-2.5-pro",
        }
    }
}

impl ChronoCapacitus {
    /// Whether a call may be made, `elapsed_seconds` after the last one:
    /// the interval must have passed.
    pub fn can_make_call(&self, elapsed_seconds: u64) -> (r: bool)
        ensures
            r == (elapsed_seconds >= self.api_call_interval_seconds),
    {
        elapsed_seconds >= self.api_call_interval_seconds
    }
}

/// What the pieces of one clutch may use: for each piece, by its name, its
/// share; and the sum of the priorities.
#[derive(Debug)]
pub struct ClutchResourceBudget {
    pub total_priority: u32,
    pub allocations: Vec<(String, ChronoCapacitus)>,
}

/// The seconds from the time `last` to the time `now`, both in seconds
/// since the epoch; where the clock reads earlier than `last`, as many as
/// can be.
pub open spec fn seconds_since(now: u64, last: u64) -> u64 {
    if now >= last {
        (now - last) as u64
    } else {
        u64::MAX
    }
}

/// The time of the last call for `name`, looked up from position `i` on:
/// the first entry of that name counts, and without one it is the epoch.
pub open spec fn last_call_from(calls: Seq<(String, u64)>, name: Seq<char>, i: int) -> u64
    decreases calls.len() - i,
{
    if i < 0 || i >= calls.len() {
        0
    } else if calls[i].0@ == name {
        calls[i].1
    } else {
        last_call_from(calls, name, i + 1)
    }
}

/// Whether the piece at `i` may make a call at the time `now`: its interval
/// has passed since its last call.
pub open spec fn eligible(
    allocations: Seq<(String, ChronoCapacitus)>,
    calls: Seq<(String, u64)>,
    now: u64,
    i: int,
) -> bool {
    &&& 0 <= i < allocations.len()
    &&& seconds_since(now, last_call_from(calls, allocations[i].0@, 0))
        >= allocations[i].1.api_call_interval_seconds
}

/// Whether the piece at `i` is the one to call next: it may make a call, no
/// piece that may make a call has a higher priority, and those before it
/// that may make a call have a lower one.
pub open spec fn is_next(
    allocations: Seq<(String, ChronoCapacitus)>,
    calls: Seq<(String, u64)>,
    now: u64,
    i: int,
) -> bool {
    &&& eligible(allocations, calls, now, i)
    &&& forall|j: int| #[trigger]
        eligible(allocations, calls, now, j) ==> allocations[j].1.priority_level
            <= allocations[i].1.priority_level && (j < i ==> allocations[j].1.priority_level
            < allocations[i].1.priority_level)
}

/// The time of the last call for `name`.
fn last_call(calls: &Vec<(String, u64)>, name: &str) -> (r: u64)
    ensures
        r == last_call_from(calls@, name@, 0),
{
    let mut i: usize = 0;
    while i < calls.len()
        invariant
            i <= calls.len(),
            last_call_from(calls@, name@, i as int) == last_call_from(calls@, name@, 0),
        decreases calls.len() - i,
    {
        if same_text(calls[i].0.as_str(), name) {
            return calls[i].1;
        }
        i += 1;
    }
    0
}

impl ClutchResourceBudget {
    /// The name of the piece to call next at the time `now`, given the
    /// times of the last calls, all in seconds since the epoch: of the
    /// pieces whose interval has passed the one with the highest priority,
    /// and of several such the first. None where no interval has passed.
    pub fn next_eligible(&self, last_calls: &Vec<(String, u64)>, now: u64) -> (r: Option<String>)
        ensures
            match r {
                Some(name) => exists|i: int| #[trigger]
                    is_next(self.allocations@, last_calls@, now, i) && name@
                        == self.allocations@[i].0@,
                None => forall|i: int| !#[trigger] eligible(self.allocations@, last_calls@, now, i),
            },
    {
        let ghost a = self.allocations@;
        let mut best: Option<usize> = None;
        let mut i: usize = 0;
        while i < self.allocations.len()
            invariant
                i <= self.allocations.len(),
                a == self.allocations@,
                match best {
                    Some(b) => {
                        &&& b < i
                        &&& eligible(a, last_calls@, now, b as int)
                        &&& forall|j: int|
                            0 <= j < i && #[trigger] eligible(a, last_calls@, now, j)
                                ==> a[j].1.priority_level <= a[b as int].1.priority_level && (j < b
                                ==> a[j].1.priority_level < a[b as int].1.priority_level)
                    },
                    None => forall|j: int| 0 <= j < i ==> !#[trigger] eligible(a, last_calls@, now, j),
                },
            decreases self.allocations.len() - i,
        {
            let last = last_call(last_calls, self.allocations[i].0.as_str());
            let elapsed = if now >= last {
                now - last
            } else {
                u64::MAX
            };
            if self.allocations[i].1.can_make_call(elapsed) {
                let better = match best {
                    Some(b) => self.allocations[b].1.priority_level
                        < self.allocations[i].1.priority_level,
                    None => true,
                };
                if better {
                    best = Some(i);
                }
            }
            i += 1;
        }
        match best {
            Some(b) => {
                assert(is_next(a, last_calls@, now, b as int));
                Some(owned(self.allocations[b].0.as_str()))
            },
            None => None,
        }
    }
}

} // verus!
