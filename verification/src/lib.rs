//! Core logic of a minimal tabbed browser: classifying address-bar input
//! into URLs and search queries, a fixed registry of search engines, the
//! settings codec for the persisted engine selection, and the tab /
//! address-bar state machine. All I/O and widget wiring lives outside.

use vstd::prelude::*;

pub mod encode;
pub mod engines;
pub mod resolve;
pub mod settings;
pub mod tabs;

verus! {

/// Number of built-in search engines.
pub const ENGINE_COUNT: usize = 7;

pub fn engine_count() -> (n: usize)
    ensures
        n == ENGINE_COUNT,
{
    ENGINE_COUNT
}

} // verus!
