//! A dependency resolver for Python-style packages, with the tools around
//! it.
//!
//! The core: versions with their total order ([`pep440`], [`ordering`],
//! [`roundtrip`]), constraints as an algebra of version sets
//! ([`constraint`]), requirements and environment markers ([`markers`]),
//! and the solver that propagates, decides and backtracks over
//! incompatibilities ([`solver`]), whose course is stated as a function of
//! its state ([`course`]).
//!
//! Around it: package metadata ([`resolver`]), the walk over a project's
//! dependencies ([`walk`]), declared dependencies ([`dependency`],
//! [`pyproject`]), lockfiles ([`lockfile`]), settings ([`config`]), the
//! choice of installers, wheels and environments ([`installer`], [`venv`],
//! [`system_libs`]), the decisions of the daemon ([`daemon`]), changes to
//! forked modules ([`hallucinatory_fangs`]), and small utilities
//! ([`native`], [`text`]).

pub mod config;
pub mod constraint;
pub mod course;
pub mod daemon;
pub mod dependency;
pub mod hallucinatory_fangs;
pub mod installer;
pub mod installsnake;
pub mod lockfile;
pub mod markers;
pub mod native;
pub mod ordering;
pub mod pep440;
pub mod pyproject;
pub mod resolver;
pub mod roundtrip;
pub mod snake_egg;
pub mod solver;
pub mod system_libs;
pub mod text;
pub mod venv;
pub mod walk;
