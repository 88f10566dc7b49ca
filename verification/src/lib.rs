//! Core of an interactive front-end for an external package manager.
//!
//! The library holds the verified logic: building the sorted, deduplicated
//! catalog of package names, prefix completion over it, classifying user
//! input into the fixed command vocabulary, planning dispatches, and the
//! interactive session state machine. Terminal I/O and process spawning
//! live outside the library and hand it plain values.

use vstd::prelude::*;

pub mod catalog;
pub mod command;
pub mod order;
pub mod session;
pub mod text;

verus! {

/// Fixed name of the external package-manager binary that dispatched
/// invocations are addressed to.
pub fn paru_path() -> (r: &'static str)
    ensures
        r@ == "paru"@,
{
    "paru"
}

} // verus!
