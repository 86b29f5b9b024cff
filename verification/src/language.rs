//! Handles on the per-language profile subtrees.

use vstd::prelude::*;

use crate::state::{
    spec_has_language, spec_language_idx, ProfileView, StateView, SystemState,
};
use vstd::pervasive::VecAdditionalExecFns;

verus! {

/// A handle on one language's profile subtree: its tag and its position
/// among the enabled languages.
pub struct LanguageRegKey {
    pub id: String,
    pub index: usize,
}

impl LanguageRegKey {
    /// Opens the profile subtree for a tag, when the language is enabled.
    pub fn find_by_tag(state: &SystemState, tag: &str) -> (r: Option<LanguageRegKey>)
        ensures
            spec_has_language(state@.languages, tag@) ==> (r matches Some(k) && k.id@ == tag@
                && k.index as int == spec_language_idx(state@.languages, tag@) && (k.index as int)
                < state@.languages.len()),
            !spec_has_language(state@.languages, tag@) ==> r is None,
    {
        match state.find_language(tag) {
            Some(i) => Some(LanguageRegKey { id: tag.to_owned(), index: i }),
            None => None,
        }
    }

    /// Writes the cached display name into this language's profile.
    pub fn set_language_name(&self, state: &mut SystemState, name: &str)
        requires
            (self.index as int) < old(state)@.languages.len(),
        ensures
            final(state)@ == (StateView {
                languages: old(state)@.languages.update(
                    self.index as int,
                    ProfileView {
                        cached_language_name: Some(name@),
                        ..old(state)@.languages[self.index as int]
                    },
                ),
                ..old(state)@
            }),
    {
        let p = &state.languages[self.index];
        let updated = crate::state::LanguageProfile {
            tag: p.tag.clone(),
            cached_language_name: Some(name.to_owned()),
            transient_lang_id: p.transient_lang_id,
            features_to_install: p.features_to_install,
            methods: crate::state::copy_items(&p.methods),
        };
        let ghost gu = updated;
        state.languages.set(self.index, updated);
        proof {
            assert(crate::state::profile_views(state.languages@) =~= old(
                state,
            )@.languages.update(
                self.index as int,
                ProfileView {
                    cached_language_name: Some(name@),
                    ..old(state)@.languages[self.index as int]
                },
            ));
            assert(state@ =~= (StateView {
                languages: old(state)@.languages.update(
                    self.index as int,
                    ProfileView {
                        cached_language_name: Some(name@),
                        ..old(state)@.languages[self.index as int]
                    },
                ),
                ..old(state)@
            }));
        }
    }
}

} // verus!
