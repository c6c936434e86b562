//! Daily lucky-species assignment with verified formatting rules.
//!
//! Once per user per calendar day the service draws a species identifier
//! and a shiny flag, caches the pair, and later requests that day return
//! the cached pair unchanged.  The formatter maps a raw lowercase,
//! hyphen-delimited species name to a human-facing display string and to
//! a wiki link slug through an ordered cascade of special-case rules.

pub mod clock;
pub mod formatter;
pub mod random;
pub mod service;
pub mod store;
