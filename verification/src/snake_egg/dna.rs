//! The milestones of gestation.

use vstd::prelude::*;

verus! {

/// A milestone of gestation, from the first to the last.
#[derive(Debug, Clone, Copy, PartialEq, Eq, Structural)]
pub enum GestationMilestone {
    Zygote,
    Embryo,
    Fetus,
    Hatchling,
    Juvenile,
    Adult,
}

/// How far gestation has come at a milestone, in percent.
pub open spec fn progress_of(m: GestationMilestone) -> int {
    match m {
        GestationMilestone::Zygote => 0,
        GestationMilestone::Embryo => 16,
        GestationMilestone::Fetus => 33,
        GestationMilestone::Hatchling => 50,
        GestationMilestone::Juvenile => 75,
        GestationMilestone::Adult => 100,
    }
}

/// The milestone after `m`, if there is one.
pub open spec fn next_of(m: GestationMilestone) -> Option<GestationMilestone> {
    match m {
        GestationMilestone::Zygote => Some(GestationMilestone::Embryo),
        GestationMilestone::Embryo => Some(GestationMilestone::Fetus),
        GestationMilestone::Fetus => Some(GestationMilestone::Hatchling),
        GestationMilestone::Hatchling => Some(GestationMilestone::Juvenile),
        GestationMilestone::Juvenile => Some(GestationMilestone::Adult),
        GestationMilestone::Adult => None,
    }
}

/// Every milestone but the last has a next one, at which gestation has come
/// further.
pub proof fn lemma_next_progresses(m: GestationMilestone)
    ensures
        next_of(m) is None <==> m == GestationMilestone::Adult,
        next_of(m) matches Some(n) ==> progress_of(m) < progress_of(n),
{
}

impl GestationMilestone {
    /// How far gestation has come, in percent.
    pub fn progress_percentage(&self) -> (r: u8)
        ensures
            r == progress_of(*self),
    {
        match self {
            GestationMilestone::Zygote => 0,
            GestationMilestone::Embryo => 16,
            GestationMilestone::Fetus => 33,
            GestationMilestone::Hatchling => 50,
            GestationMilestone::Juvenile => 75,
            GestationMilestone::Adult => 100,
        }
    }

    /// The next milestone, if there is one.
    pub fn next(&self) -> (r: Option<GestationMilestone>)
        ensures
            r == next_of(*self),
    {
        match self {
            GestationMilestone::Zygote => Some(GestationMilestone::Embryo),
            GestationMilestone::Embryo => Some(GestationMilestone::Fetus),
            GestationMilestone::Fetus => Some(GestationMilestone::Hatchling),
            GestationMilestone::Hatchling => Some(GestationMilestone::Juvenile),
            GestationMilestone::Juvenile => Some(GestationMilestone::Adult),
            GestationMilestone::Adult => None,
        }
    }
}

} // verus!
