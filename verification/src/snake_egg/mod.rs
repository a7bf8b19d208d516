//! The stages through which generated code matures.

pub mod chrono_capacitus;
pub mod dna;
pub mod schrodingers_shell;
