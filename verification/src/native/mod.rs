//! Utilities: dates, digests, identifiers, patterns, terminal styles and
//! texts by locale.

pub mod datetime;
pub mod hardware;
pub mod hash;
pub mod i18n;
pub mod id;
pub mod pattern;
pub mod style;
