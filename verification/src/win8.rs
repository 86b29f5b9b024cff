//! The language layer: which languages are enabled, which keyboards each
//! carries, and the idempotent language-enablement primitive.

use vstd::prelude::*;

use crate::state::{
    lemma_filter_push, lemma_map_values_push, profile_views, spec_has_language, spec_has_locale,
    spec_language_idx, spec_lcid_lookup, spec_locale_idx, string_views, LanguageProfile,
    ProfileView, StateView, SystemState,
};
use crate::types::{hex_string, spec_hex, spec_texts_of};

verus! {

/// The enabled-language tags, in order.
pub open spec fn spec_tags_of(langs: Seq<ProfileView>) -> Seq<Seq<char>> {
    langs.map_values(|p: ProfileView| p.tag)
}

/// The profile an enabled tag keeps: its existing one, data intact, or a
/// fresh empty profile for a tag enabled for the first time.
pub open spec fn spec_profile_for(langs: Seq<ProfileView>, tag: Seq<char>) -> ProfileView {
    let j = spec_language_idx(langs, tag);
    if j >= 0 {
        langs[j]
    } else {
        ProfileView {
            tag,
            cached_language_name: None,
            transient_lang_id: None,
            features_to_install: None,
            methods: Seq::empty(),
        }
    }
}

/// Profiles missing the features value get the default written in; present
/// values are left alone.
pub open spec fn spec_with_features(p: ProfileView) -> ProfileView {
    ProfileView {
        features_to_install: Some(
            match p.features_to_install {
                Some(v) => v,
                None => 0xe3u32,
            },
        ),
        ..p
    }
}

/// Commits an enabled-language list: tags the locale table does not know are
/// dropped, the rest keep their profile data (or get a fresh profile), and
/// every committed profile holds a features value.
pub open spec fn spec_set_user_languages(s: StateView, tags: Seq<Seq<char>>) -> StateView {
    StateView {
        languages: tags.filter(|t: Seq<char>| spec_has_locale(s.locales, t)).map_values(
            |t: Seq<char>| spec_with_features(spec_profile_for(s.languages, t)),
        ),
        ..s
    }
}

/// Enabling a language is a no-op when its tag is already enabled; otherwise
/// the tag is appended and the whole list committed.
pub open spec fn spec_enable_language(s: StateView, tag: Seq<char>) -> StateView {
    if spec_has_language(s.languages, tag) {
        s
    } else {
        spec_set_user_languages(s, spec_tags_of(s.languages).push(tag))
    }
}

/// The tags of the currently enabled languages.
pub fn enabled_languages(state: &SystemState) -> (r: Vec<String>)
    ensures
        string_views(r@) == spec_tags_of(state@.languages),
{
    let ghost gv = |x: String| x@;
    let ghost gt = |p: ProfileView| p.tag;
    let ghost langs = state@.languages;
    let mut out: Vec<String> = Vec::new();
    let mut i: usize = 0;
    proof {
        assert(out@.map_values(gv) =~= langs.take(0).map_values(gt));
    }
    while i < state.languages.len()
        invariant
            0 <= i <= state.languages@.len(),
            gv == (|x: String| x@),
            gt == (|p: ProfileView| p.tag),
            langs == state@.languages,
            langs.len() == state.languages@.len(),
            forall|j: int| 0 <= j < langs.len() ==> langs[j] == #[trigger] state.languages@[j]@,
            out@.map_values(gv) == langs.take(i as int).map_values(gt),
        decreases state.languages@.len() - i,
    {
        let ghost old_out = out@;
        let cl = state.languages[i].tag.clone();
        let ghost gx = cl;
        out.push(cl);
        i = i + 1;
        proof {
            lemma_map_values_push(old_out, gv, gx);
            assert(langs.take(i as int) =~= langs.take(i - 1).push(langs[i - 1]));
            lemma_map_values_push(langs.take(i - 1), gt, langs[i - 1]);
            assert(gv(gx) == gt(langs[i - 1]));
        }
    }
    proof {
        assert(langs.take(langs.len() as int) =~= langs);
    }
    out
}

/// Every enabled language with its input methods in canonical text, in
/// language order.
pub fn enabled_keyboards(state: &SystemState) -> (r: Vec<(String, Vec<String>)>)
    ensures
        r@.len() == state@.languages.len(),
        forall|i: int|
            0 <= i < r@.len() ==> (#[trigger] r@[i]).0@ == state@.languages[i].tag && string_views(
                r@[i].1@,
            ) == spec_texts_of(state@.languages[i].methods),
{
    let mut out: Vec<(String, Vec<String>)> = Vec::new();
    let mut i: usize = 0;
    while i < state.languages.len()
        invariant
            0 <= i <= state.languages@.len(),
            state@.languages.len() == state.languages@.len(),
            forall|j: int|
                0 <= j < state.languages@.len() ==> #[trigger] state@.languages[j]
                    == state.languages@[j]@,
            out@.len() == i,
            forall|j: int|
                0 <= j < i ==> (#[trigger] out@[j]).0@ == state@.languages[j].tag && string_views(
                    out@[j].1@,
                ) == spec_texts_of(state@.languages[j].methods),
        decreases state.languages@.len() - i,
    {
        let p = &state.languages[i];
        let mut texts: Vec<String> = Vec::new();
        let mut k: usize = 0;
        while k < p.methods.len()
            invariant
                0 <= k <= p.methods@.len(),
                texts@.len() == k,
                forall|m: int|
                    0 <= m < k ==> #[trigger] texts@[m]@ == crate::types::item_text(p.methods@[m]),
            decreases p.methods@.len() - k,
        {
            texts.push(p.methods[k].to_text());
            k = k + 1;
        }
        proof {
            assert forall|m: int|
                0 <= m < texts@.len() implies string_views(texts@)[m] == spec_texts_of(
                state@.languages[i as int].methods,
            )[m] by {
                assert(string_views(texts@)[m] == texts@[m]@);
            }
            assert(string_views(texts@) =~= spec_texts_of(state@.languages[i as int].methods));
        }
        out.push((p.tag.clone(), texts));
        i = i + 1;
    }
    out
}

/// The input methods enabled for one language, in canonical text; empty for
/// a language that is not enabled.
pub fn get_user_language_input_methods(state: &SystemState, tag: &str) -> (r: Vec<String>)
    ensures
        spec_has_language(state@.languages, tag@) ==> string_views(r@) == spec_texts_of(
            state@.languages[spec_language_idx(state@.languages, tag@)].methods,
        ),
        !spec_has_language(state@.languages, tag@) ==> r@.len() == 0,
{
    match state.find_language(tag) {
        Some(i) => {
            let methods = &state.languages[i].methods;
            let mut texts: Vec<String> = Vec::new();
            let mut k: usize = 0;
            while k < methods.len()
                invariant
                    0 <= k <= methods@.len(),
                    texts@.len() == k,
                    forall|m: int|
                        0 <= m < k ==> #[trigger] texts@[m]@ == crate::types::item_text(
                            methods@[m],
                        ),
                decreases methods@.len() - k,
            {
                texts.push(methods[k].to_text());
                k = k + 1;
            }
            proof {
                assert forall|m: int|
                    0 <= m < texts@.len() implies string_views(texts@)[m] == spec_texts_of(
                    state@.languages[spec_language_idx(state@.languages, tag@)].methods,
                )[m] by {
                    assert(string_views(texts@)[m] == texts@[m]@);
                    assert(methods@ == state.languages@[i as int]@.methods);
                }
                assert(string_views(texts@) =~= spec_texts_of(
                    state@.languages[spec_language_idx(state@.languages, tag@)].methods,
                ));
            }
            texts
        },
        None => Vec::new(),
    }
}

/// Commits an enabled-language list: validates every tag through the
/// language-name service, drops the unknown ones, and replaces the enabled
/// set with what survived.
pub fn set_user_languages(state: &mut SystemState, tags: &Vec<String>)
    ensures
        final(state)@ == spec_set_user_languages(old(state)@, string_views(tags@)),
{
    let ghost tviews = string_views(tags@);
    let ghost locs = state@.locales;
    let ghost old_langs = state@.languages;
    let ghost keepp = |t: Seq<char>| spec_has_locale(locs, t);
    let ghost build = |t: Seq<char>| spec_with_features(spec_profile_for(old_langs, t));
    let ghost gpv = |p: LanguageProfile| p@;
    let mut new_langs: Vec<LanguageProfile> = Vec::new();
    let mut i: usize = 0;
    proof {
        reveal(Seq::filter);
        assert(new_langs@.map_values(gpv) =~= tviews.take(0).filter(keepp).map_values(build));
    }
    while i < tags.len()
        invariant
            0 <= i <= tags@.len(),
            tviews == string_views(tags@),
            locs == state@.locales,
            old_langs == state@.languages,
            keepp == (|t: Seq<char>| spec_has_locale(locs, t)),
            build == (|t: Seq<char>| spec_with_features(spec_profile_for(old_langs, t))),
            gpv == (|p: LanguageProfile| p@),
            tviews.len() == tags@.len(),
            forall|j: int| 0 <= j < tags@.len() ==> tviews[j] == #[trigger] tags@[j]@,
            new_langs@.map_values(gpv) == tviews.take(i as int).filter(keepp).map_values(build),
        decreases tags@.len() - i,
    {
        let tag = &tags[i];
        proof {
            assert(tviews.take(i + 1) =~= tviews.take(i as int).push(tviews[i as int]));
            lemma_filter_push(tviews.take(i as int), keepp, tviews[i as int]);
        }
        if state.find_locale(tag.as_str()).is_some() {
            let profile = match state.find_language(tag.as_str()) {
                Some(j) => state.languages[j].duplicate(),
                None => LanguageProfile {
                    tag: tag.clone(),
                    cached_language_name: None,
                    transient_lang_id: None,
                    features_to_install: None,
                    methods: Vec::new(),
                },
            };
            let features: u32 = match profile.features_to_install {
                Some(v) => v,
                None => 0xe3,
            };
            let committed = LanguageProfile { features_to_install: Some(features), ..profile };
            let ghost gc = committed;
            proof {
                assert(gc@ =~= build(tviews[i as int]));
                lemma_map_values_push(
                    tviews.take(i as int).filter(keepp),
                    build,
                    tviews[i as int],
                );
                lemma_map_values_push(new_langs@, gpv, gc);
            }
            new_langs.push(committed);
        } else {
            proof {
                assert(!keepp(tviews[i as int]));
            }
        }
        i = i + 1;
    }
    proof {
        assert(tviews.take(tviews.len() as int) =~= tviews);
    }
    state.languages = new_langs;
    proof {
        assert(state@ =~= spec_set_user_languages(old(state)@, string_views(tags@)));
    }
}

/// Enables a language tag: a no-op when it is already enabled, otherwise the
/// tag is appended to the enabled list and the whole list committed.
pub fn enable_language(state: &mut SystemState, tag: &str)
    ensures
        final(state)@ == spec_enable_language(old(state)@, tag@),
{
    if state.find_language(tag).is_some() {
        return ;
    }
    let ghost gv = |x: String| x@;
    let mut tags = enabled_languages(state);
    let ghost old_tags = tags@;
    let cl = tag.to_owned();
    let ghost gx = cl;
    tags.push(cl);
    proof {
        lemma_map_values_push(old_tags, gv, gx);
        assert(string_views(tags@) == spec_tags_of(old(state)@.languages).push(tag@));
    }
    set_user_languages(state, &tags);
}

/// Drops every enabled language that no longer carries any input method.
pub open spec fn spec_disable_empty_languages(s: StateView) -> StateView {
    spec_set_user_languages(
        s,
        spec_tags_of(s.languages.filter(|p: ProfileView| p.methods.len() != 0)),
    )
}

/// Recomputes the enabled-language list, keeping only languages that still
/// carry at least one input method, and commits the reduced list.
pub fn disable_empty_languages(state: &mut SystemState)
    ensures
        final(state)@ == spec_disable_empty_languages(old(state)@),
{
    let ghost langs = state@.languages;
    let ghost pm = |pr: ProfileView| pr.methods.len() != 0;
    let ghost gt = |p: ProfileView| p.tag;
    let ghost gv = |x: String| x@;
    let mut tags: Vec<String> = Vec::new();
    let mut i: usize = 0;
    proof {
        reveal(Seq::filter);
        assert(tags@.map_values(gv) =~= langs.take(0).filter(pm).map_values(gt));
    }
    while i < state.languages.len()
        invariant
            0 <= i <= state.languages@.len(),
            langs == state@.languages,
            pm == (|pr: ProfileView| pr.methods.len() != 0),
            gt == (|p: ProfileView| p.tag),
            gv == (|x: String| x@),
            langs.len() == state.languages@.len(),
            forall|j: int| 0 <= j < langs.len() ==> langs[j] == #[trigger] state.languages@[j]@,
            tags@.map_values(gv) == langs.take(i as int).filter(pm).map_values(gt),
        decreases state.languages@.len() - i,
    {
        proof {
            assert(langs.take(i + 1) =~= langs.take(i as int).push(langs[i as int]));
            lemma_filter_push(langs.take(i as int), pm, langs[i as int]);
        }
        if state.languages[i].methods.len() > 0 {
            let ghost old_tags = tags@;
            let cl = state.languages[i].tag.clone();
            let ghost gx = cl;
            tags.push(cl);
            proof {
                lemma_map_values_push(langs.take(i as int).filter(pm), gt, langs[i as int]);
                lemma_map_values_push(old_tags, gv, gx);
                assert(gv(gx) == gt(langs[i as int]));
            }
        } else {
            proof {
                assert(!pm(langs[i as int]));
            }
        }
        i = i + 1;
    }
    proof {
        assert(langs.take(langs.len() as int) =~= langs);
    }
    set_user_languages(state, &tags);
}

/// The maintenance sweep: prune the keyboard and input-method layer, then
/// drop languages left with no input method, in that order, so that "empty"
/// is measured after the pruning.
pub open spec fn spec_clean(s: StateView) -> StateView {
    spec_disable_empty_languages(crate::keyboard::spec_remove_invalid(s))
}

/// Runs the full cleanup: duplicate records, records with missing DLLs and
/// dangling input-method references go first, then languages left empty.
pub fn clean(state: &mut SystemState)
    ensures
        final(state)@ == spec_clean(old(state)@),
{
    crate::keyboard::remove_invalid(state);
    disable_empty_languages(state);
}

// ---------------------------------------------------------------------------
// Language queries
// ---------------------------------------------------------------------------

/// The text `query_language` prints for one tag.
pub open spec fn spec_query_language(s: StateView, tag: Seq<char>) -> Seq<char> {
    let i = spec_locale_idx(s.locales, tag);
    let id = if i >= 0 {
        s.locales[i].canonical
    } else {
        tag
    };
    let j = spec_locale_idx(s.locales, id);
    if j < 0 {
        id + ": Unsupported tag.\n"@
    } else {
        spec_language_description(
            id,
            s.locales[j].name,
            s.locales[j].english_name,
            s.locales[j].localised_name,
            s.locales[j].script_name,
        ) + spec_lcid_line(s, tag)
    }
}

pub open spec fn spec_language_description(
    tag: Seq<char>,
    name: Seq<char>,
    english_name: Seq<char>,
    localised_name: Seq<char>,
    script_name: Seq<char>,
) -> Seq<char> {
    "Tag:           "@ + tag + "\nName:          "@ + name + "\nEnglish Name:  "@ + english_name
        + "\nNative Name:   "@ + localised_name + "\nScript:        "@ + script_name + "\n"@
}

pub open spec fn spec_lcid_line(s: StateView, tag: Seq<char>) -> Seq<char> {
    match spec_lcid_lookup(s.locales, tag) {
        Some(l) => "LCID:          0x"@ + spec_hex(l as nat, 8, false),
        None => "LCID:          undefined"@,
    }
}

impl crate::state::LanguageData {
    /// The block of display names, one line per field.
    pub fn description(&self) -> (r: String)
        ensures
            r@ == spec_language_description(
                self@.tag,
                self@.name,
                self@.english_name,
                self@.localised_name,
                self@.script_name,
            ),
    {
        let mut s: String = "Tag:           ".to_owned();
        s.append(self.tag.as_str());
        s.append("\nName:          ");
        s.append(self.name.as_str());
        s.append("\nEnglish Name:  ");
        s.append(self.english_name.as_str());
        s.append("\nNative Name:   ");
        s.append(self.localised_name.as_str());
        s.append("\nScript:        ");
        s.append(self.script_name.as_str());
        s.append("\n");
        s
    }
}

/// Describes a language tag: its display names and its locale identifier, or
/// a note that the tag is unsupported.
pub fn query_language(state: &SystemState, tag: &str) -> (r: String)
    ensures
        r@ == spec_query_language(state@, tag@),
{
    let id: String = match state.resolve_locale_name(tag) {
        Some(v) => v,
        None => tag.to_owned(),
    };
    match state.get_language_names(id.as_str()) {
        None => {
            let mut s = id;
            s.append(": Unsupported tag.\n");
            s
        },
        Some(v) => {
            let mut s = v.description();
            match state.lcid_from_bcp47(tag) {
                Some(lcid) => {
                    s.append("LCID:          0x");
                    let h = hex_string(lcid, 8, false);
                    s.append(h.as_str());
                },
                None => {
                    s.append("LCID:          undefined");
                },
            }
            s
        },
    }
}

} // verus!
