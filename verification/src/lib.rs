//! Keyboard-layout and language registry reconciliation.
//!
//! The Windows registry trees and platform services this tool manages are
//! modelled as one in-memory value, [`state::SystemState`]; every operation
//! is a function over that state with a contract tying it to a spec-level
//! model of the same operation.

use vstd::prelude::*;

pub mod keyboard;
pub mod keyboard_legacy;
pub mod keyboard_win8;
pub mod language;
pub mod laws;
pub mod ordered_map;
pub mod state;
pub mod types;
pub mod win7;
pub mod win8;

pub use win8::{clean, enable_language, enabled_keyboards, enabled_languages, query_language};

verus! {

/// Maps a resolved locale identifier to the one the keyboard store uses:
/// the reserved transient identifier `0x1000` and an unresolvable tag both
/// become `0x2000`.
pub fn lcid_of_resolved(resolved: Option<u32>) -> (r: u32)
    ensures
        r == spec_lcid_of_resolved(resolved),
{
    match resolved {
        Some(x) => if x == 0x1000 { 0x2000 } else { x },
        None => 0x2000,
    }
}

pub open spec fn spec_lcid_of_resolved(resolved: Option<u32>) -> u32 {
    match resolved {
        Some(x) => if x == 0x1000 { 0x2000u32 } else { x },
        None => 0x2000u32,
    }
}

/// The locale identifier the store tags records with for `tag`.
pub open spec fn spec_lcid(locales: Seq<state::LocaleView>, tag: Seq<char>) -> u32 {
    spec_lcid_of_resolved(state::spec_lcid_lookup(locales, tag))
}

/// Resolves a tag to the locale identifier used throughout the store.
pub fn lcid(state: &state::SystemState, tag: &str) -> (r: u32)
    ensures
        r == spec_lcid(state@.locales, tag@),
{
    lcid_of_resolved(state.lcid_from_bcp47(tag))
}

} // verus!
