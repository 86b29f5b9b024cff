//! The legacy variant of the maintenance and query surface: no per-language
//! input-method store exists there, so cleanup touches only the keyboard
//! records.

use vstd::prelude::*;

use crate::state::{spec_lcid_lookup, spec_locale_idx, StateView, SystemState};
use crate::types::{hex_string, spec_hex};

verus! {

/// The text the legacy query prints: the resolved tag and its locale
/// identifier, or a note that none is defined.
pub open spec fn spec_query_language(s: StateView, tag: Seq<char>) -> Seq<char> {
    let i = spec_locale_idx(s.locales, tag);
    let id = if i >= 0 {
        s.locales[i].canonical
    } else {
        tag
    };
    "Tag:  "@ + id + "\n"@ + (match spec_lcid_lookup(s.locales, id) {
        Some(l) => "LCID: 0x"@ + spec_hex(l as nat, 8, false),
        None => "LCID: undefined"@,
    })
}

/// Describes a language tag: its resolved form and its locale identifier.
pub fn query_language(state: &SystemState, tag: &str) -> (r: String)
    ensures
        r@ == spec_query_language(state@, tag@),
{
    let id: String = match state.resolve_locale_name(tag) {
        Some(v) => v,
        None => tag.to_owned(),
    };
    let lcid = state.lcid_from_bcp47(id.as_str());
    let mut s: String = "Tag:  ".to_owned();
    s.append(id.as_str());
    s.append("\n");
    match lcid {
        Some(l) => {
            s.append("LCID: 0x");
            let h = hex_string(l, 8, false);
            s.append(h.as_str());
        },
        None => {
            s.append("LCID: undefined");
        },
    }
    s
}

/// The legacy cleanup: duplicate records and records with missing DLLs go;
/// there is no input-method layer to prune.
pub open spec fn spec_clean(s: StateView) -> StateView {
    crate::keyboard::spec_remove_invalid_dlls(crate::keyboard::spec_remove_duplicate_guids(s))
}

/// Runs the legacy cleanup pass.
pub fn clean(state: &mut SystemState)
    ensures
        final(state)@ == spec_clean(old(state)@),
{
    crate::keyboard::remove_duplicate_guids(state);
    crate::keyboard::remove_invalid_dlls(state);
}

} // verus!
