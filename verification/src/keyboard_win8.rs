//! The input-method reconciler: pushing per-language input lists through the
//! platform install primitive, pruning dangling keyboard references, and
//! regenerating the derived Preload and Substitutes tables.

use vstd::prelude::*;

use crate::state::{
    copy_items, is_custom_id, lemma_filter_push, lemma_map_values_push, profile_views,
    spec_lcid_lookup, LanguageProfile, KbdView, ProfileView, StateView, SystemState,
};
use crate::types::{InputList, InputListItem};

verus! {

// ---------------------------------------------------------------------------
// The enabled input methods, across all languages
// ---------------------------------------------------------------------------

/// Every enabled input method, language by language, in language order.
pub open spec fn spec_collect_items(langs: Seq<ProfileView>) -> Seq<InputListItem>
    decreases langs.len(),
{
    if langs.len() == 0 {
        Seq::empty()
    } else {
        spec_collect_items(langs.drop_last()) + langs.last().methods
    }
}

/// Gathers the input methods of every enabled language into one list.
pub fn enabled_input_methods(state: &SystemState) -> (r: InputList)
    ensures
        r@ == spec_collect_items(state@.languages),
{
    let ghost langs = state@.languages;
    let mut items: Vec<InputListItem> = Vec::new();
    let mut i: usize = 0;
    proof {
        assert(items@ =~= spec_collect_items(langs.take(0)));
    }
    while i < state.languages.len()
        invariant
            0 <= i <= state.languages@.len(),
            langs == state@.languages,
            langs.len() == state.languages@.len(),
            forall|j: int| 0 <= j < langs.len() ==> langs[j] == #[trigger] state.languages@[j]@,
            items@ == spec_collect_items(langs.take(i as int)),
        decreases state.languages@.len() - i,
    {
        let methods = &state.languages[i].methods;
        let mut k: usize = 0;
        while k < methods.len()
            invariant
                0 <= k <= methods@.len(),
                methods@ == langs[i as int].methods,
                i < langs.len(),
                items@ == spec_collect_items(langs.take(i as int)) + methods@.take(k as int),
            decreases methods@.len() - k,
        {
            items.push(methods[k]);
            k = k + 1;
            proof {
                assert(spec_collect_items(langs.take(i as int)) + methods@.take(k as int)
                    =~= (spec_collect_items(langs.take(i as int)) + methods@.take(k - 1)).push(
                    methods@[k - 1],
                ));
            }
        }
        i = i + 1;
        proof {
            assert(langs.take(i as int).drop_last() =~= langs.take(i - 1));
            assert(langs.take(i as int).last() == langs[i - 1]);
            assert(methods@.take(methods@.len() as int) =~= methods@);
        }
    }
    proof {
        assert(langs.take(langs.len() as int) =~= langs);
    }
    InputList::from_items(items)
}

// ---------------------------------------------------------------------------
// The platform input primitives over the model
// ---------------------------------------------------------------------------

/// Every language loses all its input methods; nothing else changes. This is
/// the hard-reset primitive a full rebuild starts from.
pub open spec fn spec_clear_inputs(s: StateView) -> StateView {
    StateView {
        languages: s.languages.map_values(
            |p: ProfileView| ProfileView { methods: Seq::empty(), ..p },
        ),
        ..s
    }
}

/// Clears the input-method list of every enabled language.
pub fn remove_inputs_for_all_languages(state: &mut SystemState)
    ensures
        final(state)@ == spec_clear_inputs(old(state)@),
{
    let ghost langs = state@.languages;
    let ghost gclear = |p: ProfileView| ProfileView { methods: Seq::empty(), ..p };
    let ghost gpv = |p: LanguageProfile| p@;
    let mut new_langs: Vec<LanguageProfile> = Vec::new();
    let mut i: usize = 0;
    proof {
        assert(new_langs@.map_values(gpv) =~= langs.take(0).map_values(gclear));
    }
    while i < state.languages.len()
        invariant
            0 <= i <= state.languages@.len(),
            langs == state@.languages,
            gclear == (|p: ProfileView| ProfileView { methods: Seq::empty(), ..p }),
            gpv == (|p: LanguageProfile| p@),
            langs.len() == state.languages@.len(),
            forall|j: int| 0 <= j < langs.len() ==> langs[j] == #[trigger] state.languages@[j]@,
            new_langs@.map_values(gpv) == langs.take(i as int).map_values(gclear),
        decreases state.languages@.len() - i,
    {
        let p = &state.languages[i];
        let cleared = LanguageProfile {
            tag: p.tag.clone(),
            cached_language_name: crate::state::copy_opt_string(&p.cached_language_name),
            transient_lang_id: p.transient_lang_id,
            features_to_install: p.features_to_install,
            methods: Vec::new(),
        };
        let ghost gc = cleared;
        proof {
            assert(gc@ =~= gclear(langs[i as int]));
            assert(langs.take(i + 1) =~= langs.take(i as int).push(langs[i as int]));
            lemma_map_values_push(langs.take(i as int), gclear, langs[i as int]);
            lemma_map_values_push(new_langs@, gpv, gc);
        }
        new_langs.push(cleared);
        i = i + 1;
    }
    proof {
        assert(langs.take(langs.len() as int) =~= langs);
    }
    state.languages = new_langs;
    proof {
        assert(state@ =~= spec_clear_inputs(old(state)@));
    }
}

/// Merges the items carrying locale `l` into a method list, left to right,
/// skipping any already present: the merge behaviour of the install
/// primitive with its flag at zero.
pub open spec fn spec_merge_lang(
    acc: Seq<InputListItem>,
    items: Seq<InputListItem>,
    l: u32,
) -> Seq<InputListItem>
    decreases items.len(),
{
    if items.len() == 0 {
        acc
    } else {
        let pre = spec_merge_lang(acc, items.drop_last(), l);
        let it = items.last();
        if it.lang_id as u32 == l && !pre.contains(it) {
            pre.push(it)
        } else {
            pre
        }
    }
}

/// What one profile becomes when an input list is installed: languages whose
/// tag resolves to a locale receive the items carrying that locale, merged
/// without duplicates; a language without a locale is left alone.
pub open spec fn spec_apply_items(
    locales: Seq<crate::state::LocaleView>,
    p: ProfileView,
    items: Seq<InputListItem>,
) -> ProfileView {
    match spec_lcid_lookup(locales, p.tag) {
        Some(l) => ProfileView { methods: spec_merge_lang(p.methods, items, l), ..p },
        None => p,
    }
}

/// Installing an input list merges each item into every enabled language
/// whose locale the item carries; nothing else changes.
pub open spec fn spec_install_layout(s: StateView, items: Seq<InputListItem>) -> StateView {
    StateView {
        languages: s.languages.map_values(|p: ProfileView| spec_apply_items(s.locales, p, items)),
        ..s
    }
}

/// Whether a method list already holds an item.
fn items_contain(v: &Vec<InputListItem>, it: InputListItem) -> (r: bool)
    ensures
        r == v@.contains(it),
{
    let mut j: usize = 0;
    while j < v.len()
        invariant
            0 <= j <= v@.len(),
            forall|m: int| 0 <= m < j ==> v@[m] != it,
        decreases v@.len() - j,
    {
        if v[j] == it {
            return true;
        }
        j = j + 1;
    }
    false
}

/// Writes an input-method list through to the per-language state: each
/// enabled language whose locale appears among the items receives them,
/// merged behind its existing methods without duplicates. The flag is the
/// install primitive's; the only value this design passes is zero, merge.
pub fn install_layout(state: &mut SystemState, inputs: InputList, _flag: i32)
    ensures
        final(state)@ == spec_install_layout(old(state)@, inputs@),
{
    let items: Vec<InputListItem> = inputs.into_inner();
    let ghost gitems = items@;
    let ghost langs = state@.languages;
    let ghost locs = state@.locales;
    let ghost gapply = |p: ProfileView| spec_apply_items(locs, p, gitems);
    let ghost gpv = |p: LanguageProfile| p@;
    let mut new_langs: Vec<LanguageProfile> = Vec::new();
    let mut i: usize = 0;
    proof {
        assert(new_langs@.map_values(gpv) =~= langs.take(0).map_values(gapply));
    }
    while i < state.languages.len()
        invariant
            0 <= i <= state.languages@.len(),
            gitems == items@,
            langs == state@.languages,
            locs == state@.locales,
            gapply == (|p: ProfileView| spec_apply_items(locs, p, gitems)),
            gpv == (|p: LanguageProfile| p@),
            langs.len() == state.languages@.len(),
            forall|j: int| 0 <= j < langs.len() ==> langs[j] == #[trigger] state.languages@[j]@,
            new_langs@.map_values(gpv) == langs.take(i as int).map_values(gapply),
        decreases state.languages@.len() - i,
    {
        let p = &state.languages[i];
        let mut methods = copy_items(&p.methods);
        match state.lcid_from_bcp47(p.tag.as_str()) {
            Some(l) => {
                let mut k: usize = 0;
                proof {
                    assert(methods@ =~= spec_merge_lang(langs[i as int].methods, gitems.take(0), l));
                }
                while k < items.len()
                    invariant
                        0 <= k <= items@.len(),
                        gitems == items@,
                        i < langs.len(),
                        methods@ == spec_merge_lang(langs[i as int].methods, gitems.take(k as int), l),
                    decreases items@.len() - k,
                {
                    let it = items[k];
                    proof {
                        assert(gitems.take(k + 1).drop_last() =~= gitems.take(k as int));
                        assert(gitems.take(k + 1).last() == gitems[k as int]);
                    }
                    if it.lang_id as u32 == l && !items_contain(&methods, it) {
                        methods.push(it);
                    }
                    k = k + 1;
                }
                proof {
                    assert(gitems.take(gitems.len() as int) =~= gitems);
                }
            },
            None => {},
        }
        let updated = LanguageProfile {
            tag: p.tag.clone(),
            cached_language_name: crate::state::copy_opt_string(&p.cached_language_name),
            transient_lang_id: p.transient_lang_id,
            features_to_install: p.features_to_install,
            methods,
        };
        let ghost gu = updated;
        proof {
            assert(gu@ =~= gapply(langs[i as int]));
            assert(langs.take(i + 1) =~= langs.take(i as int).push(langs[i as int]));
            lemma_map_values_push(langs.take(i as int), gapply, langs[i as int]);
            lemma_map_values_push(new_langs@, gpv, gu);
        }
        new_langs.push(updated);
        i = i + 1;
    }
    proof {
        assert(langs.take(langs.len() as int) =~= langs);
    }
    state.languages = new_langs;
    proof {
        assert(state@ =~= spec_install_layout(old(state)@, gitems));
    }
}

// ---------------------------------------------------------------------------
// Sorting the combined keyboard-id list
// ---------------------------------------------------------------------------

/// The regeneration order: by locale first, then by keyboard identifier.
pub open spec fn spec_key_le(a: InputListItem, b: InputListItem) -> bool {
    a.lang_id < b.lang_id || (a.lang_id == b.lang_id && a.tip_id <= b.tip_id)
}

/// Where a stable sort puts `x` into the sorted prefix: after every element
/// that does not exceed it.
pub open spec fn spec_insert_pos(s: Seq<InputListItem>, x: InputListItem) -> int
    decreases s.len(),
{
    if s.len() == 0 {
        0
    } else if spec_key_le(s[0], x) {
        1 + spec_insert_pos(s.drop_first(), x)
    } else {
        0
    }
}

/// Stable insertion sort by locale, then keyboard identifier: elements with
/// equal keys keep their collection order.
pub open spec fn spec_sort_items(s: Seq<InputListItem>) -> Seq<InputListItem>
    decreases s.len(),
{
    if s.len() == 0 {
        s
    } else {
        let pre = spec_sort_items(s.drop_last());
        pre.insert(spec_insert_pos(pre, s.last()), s.last())
    }
}

pub proof fn lemma_insert_pos_bounds(s: Seq<InputListItem>, x: InputListItem)
    ensures
        0 <= spec_insert_pos(s, x) <= s.len(),
    decreases s.len(),
{
    if s.len() > 0 && spec_key_le(s[0], x) {
        lemma_insert_pos_bounds(s.drop_first(), x);
    }
}

proof fn lemma_insert_pos_at(s: Seq<InputListItem>, x: InputListItem, p: int)
    requires
        0 <= p <= s.len(),
        forall|j: int| 0 <= j < p ==> spec_key_le(#[trigger] s[j], x),
        p == s.len() || !spec_key_le(s[p], x),
    ensures
        spec_insert_pos(s, x) == p,
    decreases s.len(),
{
    if s.len() == 0 {
    } else if p == 0 {
    } else {
        let t = s.drop_first();
        assert(forall|j: int| 0 <= j < t.len() ==> #[trigger] t[j] == s[j + 1]);
        lemma_insert_pos_at(t, x, p - 1);
    }
}

pub proof fn lemma_sort_items_len(s: Seq<InputListItem>)
    ensures
        spec_sort_items(s).len() == s.len(),
    decreases s.len(),
{
    if s.len() > 0 {
        lemma_sort_items_len(s.drop_last());
        let pre = spec_sort_items(s.drop_last());
        lemma_insert_pos_bounds(pre, s.last());
    }
}

/// Position a stable insertion gives `x` in the sorted list built so far.
fn insert_pos(out: &Vec<InputListItem>, x: InputListItem) -> (r: usize)
    ensures
        r == spec_insert_pos(out@, x),
        r <= out@.len(),
{
    let mut j: usize = 0;
    while j < out.len()
        invariant
            0 <= j <= out@.len(),
            forall|m: int| 0 <= m < j ==> spec_key_le(#[trigger] out@[m], x),
        decreases out@.len() - j,
    {
        let a = out[j];
        let le = a.lang_id < x.lang_id || (a.lang_id == x.lang_id && a.tip_id <= x.tip_id);
        if !le {
            proof {
                lemma_insert_pos_at(out@, x, j as int);
            }
            return j;
        }
        j = j + 1;
    }
    proof {
        lemma_insert_pos_at(out@, x, out@.len() as int);
    }
    j
}

/// Sorts the combined keyboard-id list: primary key the locale, ascending,
/// secondary key the keyboard identifier, ascending, stable for ties.
pub fn sort_items(v: &Vec<InputListItem>) -> (r: Vec<InputListItem>)
    ensures
        r@ == spec_sort_items(v@),
{
    let mut out: Vec<InputListItem> = Vec::new();
    let mut i: usize = 0;
    proof {
        assert(v@.take(0) =~= Seq::<InputListItem>::empty());
    }
    while i < v.len()
        invariant
            0 <= i <= v@.len(),
            out@ == spec_sort_items(v@.take(i as int)),
        decreases v@.len() - i,
    {
        let x = v[i];
        let pos = insert_pos(&out, x);
        out.insert(pos, x);
        i = i + 1;
        proof {
            assert(v@.take(i as int).drop_last() =~= v@.take(i - 1));
            assert(v@.take(i as int).last() == v@[i - 1]);
        }
    }
    proof {
        assert(v@.take(v@.len() as int) =~= v@);
    }
    out
}

// ---------------------------------------------------------------------------
// Registry regeneration
// ---------------------------------------------------------------------------

/// Whether some item in the list references this keyboard identifier.
pub open spec fn spec_target_present(items: Seq<InputListItem>, target: u32) -> bool {
    exists|i: int| 0 <= i < items.len() && (#[trigger] items[i].tip_id) == target
}

/// The substitutes that survive regeneration: exactly those whose target
/// still appears in the combined keyboard-id list.
pub open spec fn spec_regen_subs(
    items: Seq<InputListItem>,
    subs: Seq<crate::state::SubstituteEntry>,
) -> Seq<crate::state::SubstituteEntry> {
    subs.filter(|sub: crate::state::SubstituteEntry| spec_target_present(items, sub.target))
}

/// What one Preload slot receives: the first substitute that targets the
/// item's keyboard and whose low half matches the item's locale, or the raw
/// keyboard identifier when no such substitute exists.
pub open spec fn spec_preload_value(
    subs: Seq<crate::state::SubstituteEntry>,
    it: InputListItem,
) -> u32 {
    let j = crate::state::first_match(
        subs,
        |sub: crate::state::SubstituteEntry|
            sub.target == it.tip_id && crate::state::id_low16(sub.id) == it.lang_id as u32,
    );
    if j >= 0 {
        subs[j].id
    } else {
        it.tip_id
    }
}

/// The rebuilt Preload table: one slot per sorted item, indexed from one.
pub open spec fn spec_regen_preload(
    items: Seq<InputListItem>,
    subs: Seq<crate::state::SubstituteEntry>,
) -> Seq<crate::state::PreloadEntry> {
    Seq::new(
        items.len(),
        |i: int| crate::state::PreloadEntry {
            index: (i + 1) as usize,
            value: spec_preload_value(subs, items[i]),
        },
    )
}

/// The sorted combined keyboard-id list a profile tree yields.
pub open spec fn spec_sorted_keyboard_ids(langs: Seq<ProfileView>) -> Seq<InputListItem> {
    spec_sort_items(spec_collect_items(langs))
}

/// Gathers the input methods of a profile tree into one list.
fn collect_items(languages: &Vec<LanguageProfile>) -> (r: Vec<InputListItem>)
    ensures
        r@ == spec_collect_items(profile_views(languages@)),
{
    let ghost langs = profile_views(languages@);
    let mut items: Vec<InputListItem> = Vec::new();
    let mut i: usize = 0;
    proof {
        assert(items@ =~= spec_collect_items(langs.take(0)));
    }
    while i < languages.len()
        invariant
            0 <= i <= languages@.len(),
            langs == profile_views(languages@),
            langs.len() == languages@.len(),
            forall|j: int| 0 <= j < langs.len() ==> langs[j] == #[trigger] languages@[j]@,
            items@ == spec_collect_items(langs.take(i as int)),
        decreases languages@.len() - i,
    {
        let methods = &languages[i].methods;
        let mut k: usize = 0;
        while k < methods.len()
            invariant
                0 <= k <= methods@.len(),
                methods@ == langs[i as int].methods,
                i < langs.len(),
                items@ == spec_collect_items(langs.take(i as int)) + methods@.take(k as int),
            decreases methods@.len() - k,
        {
            items.push(methods[k]);
            k = k + 1;
            proof {
                assert(spec_collect_items(langs.take(i as int)) + methods@.take(k as int)
                    =~= (spec_collect_items(langs.take(i as int)) + methods@.take(k - 1)).push(
                    methods@[k - 1],
                ));
            }
        }
        i = i + 1;
        proof {
            assert(langs.take(i as int).drop_last() =~= langs.take(i - 1));
            assert(langs.take(i as int).last() == langs[i - 1]);
            assert(methods@.take(methods@.len() as int) =~= methods@);
        }
    }
    proof {
        assert(langs.take(langs.len() as int) =~= langs);
    }
    items
}

/// Whether some item in the list references this keyboard identifier.
fn target_present(items: &Vec<InputListItem>, target: u32) -> (r: bool)
    ensures
        r == spec_target_present(items@, target),
{
    let mut j: usize = 0;
    while j < items.len()
        invariant
            0 <= j <= items@.len(),
            forall|m: int| 0 <= m < j ==> (#[trigger] items@[m].tip_id) != target,
        decreases items@.len() - j,
    {
        if items[j].tip_id == target {
            return true;
        }
        j = j + 1;
    }
    false
}

/// Rebuilds the derived tables from a profile tree: reads every language's
/// keyboard references, sorts them by locale then keyboard, deletes every
/// substitute whose target no longer appears, deletes all Preload values
/// unconditionally, and repopulates Preload from one: a matching substitute
/// where one exists, the raw keyboard identifier otherwise.
pub fn regenerate_given_registry(
    languages: &Vec<LanguageProfile>,
    substitutes: &mut Vec<crate::state::SubstituteEntry>,
    preload: &mut Vec<crate::state::PreloadEntry>,
)
    ensures
        final(substitutes)@ == spec_regen_subs(
            spec_sorted_keyboard_ids(profile_views(languages@)),
            old(substitutes)@,
        ),
        final(preload)@ == spec_regen_preload(
            spec_sorted_keyboard_ids(profile_views(languages@)),
            old(substitutes)@,
        ),
{
    let collected = collect_items(languages);
    let items = sort_items(&collected);
    let ghost gitems = items@;
    proof {
        lemma_sort_items_len(collected@);
    }

    // Garbage-collect dangling substitutes, keeping the full original list
    // for the Preload decisions below.
    let ghost old_subs = substitutes@;
    let ghost keepp = |sub: crate::state::SubstituteEntry| spec_target_present(gitems, sub.target);
    let mut kept: Vec<crate::state::SubstituteEntry> = Vec::new();
    let mut i: usize = 0;
    proof {
        reveal(Seq::filter);
        assert(kept@ =~= old_subs.take(0).filter(keepp));
    }
    while i < substitutes.len()
        invariant
            0 <= i <= substitutes@.len(),
            old_subs == substitutes@,
            gitems == items@,
            keepp == (|sub: crate::state::SubstituteEntry| spec_target_present(
                gitems,
                sub.target,
            )),
            kept@ == old_subs.take(i as int).filter(keepp),
        decreases substitutes@.len() - i,
    {
        let sub = substitutes[i];
        proof {
            assert(old_subs.take(i + 1) =~= old_subs.take(i as int).push(old_subs[i as int]));
            lemma_filter_push(old_subs.take(i as int), keepp, old_subs[i as int]);
        }
        if target_present(&items, sub.target) {
            kept.push(sub);
        } else {
            proof {
                assert(!keepp(old_subs[i as int]));
            }
        }
        i = i + 1;
    }
    proof {
        assert(old_subs.take(old_subs.len() as int) =~= old_subs);
    }
    let mut full: Vec<crate::state::SubstituteEntry> = kept;
    core::mem::swap(substitutes, &mut full);

    // Delete every Preload value, then repopulate sequentially from one.
    preload.clear();
    let mut k: usize = 0;
    while k < items.len()
        invariant
            0 <= k <= items@.len(),
            gitems == items@,
            full@ == old_subs,
            preload@ == spec_regen_preload(gitems, old_subs).take(k as int),
        decreases items@.len() - k,
    {
        let it = items[k];
        let ghost subp = |sub: crate::state::SubstituteEntry| sub.target == it.tip_id
            && crate::state::id_low16(sub.id) == it.lang_id as u32;
        let mut j: usize = 0;
        let mut value: u32 = it.tip_id;
        let mut found = false;
        while j < full.len()
            invariant
                0 <= j <= full@.len(),
                subp == (|sub: crate::state::SubstituteEntry| sub.target == it.tip_id
                    && crate::state::id_low16(sub.id) == it.lang_id as u32),
                !found ==> forall|m: int| 0 <= m < j ==> !subp(#[trigger] full@[m]),
                !found ==> value == it.tip_id,
                found ==> crate::state::first_match(full@, subp) >= 0 && value == full@[
                    crate::state::first_match(full@, subp)
                ].id,
            decreases full@.len() - j,
        {
            if !found {
                let sub = full[j];
                if sub.target == it.tip_id && sub.id % 0x10000 == it.lang_id as u32 {
                    proof {
                        crate::state::lemma_first_match_at(full@, subp, j as int);
                    }
                    value = sub.id;
                    found = true;
                }
            }
            j = j + 1;
        }
        proof {
            if !found {
                crate::state::lemma_first_match(full@, subp);
            }
            assert(value == spec_preload_value(old_subs, gitems[k as int]));
        }
        preload.push(crate::state::PreloadEntry { index: k + 1, value });
        k = k + 1;
        proof {
            assert(preload@ =~= spec_regen_preload(gitems, old_subs).take(k as int));
        }
    }
    proof {
        assert(spec_regen_preload(gitems, old_subs).take(gitems.len() as int) =~= spec_regen_preload(
            gitems,
            old_subs,
        ));
    }
}

/// Rebuilds the current user's Substitutes and Preload tables from the
/// current user's language profiles.
pub fn regenerate_registry(state: &mut SystemState)
    ensures
        final(state)@ == spec_regenerate(old(state)@),
{
    regenerate_given_registry(&state.languages, &mut state.substitutes, &mut state.preload);
    proof {
        assert(state@ =~= spec_regenerate(old(state)@));
    }
}

/// Regeneration leaves everything but the two derived tables alone.
pub open spec fn spec_regenerate(s: StateView) -> StateView {
    StateView {
        substitutes: spec_regen_subs(spec_sorted_keyboard_ids(s.languages), s.substitutes),
        preload: spec_regen_preload(spec_sorted_keyboard_ids(s.languages), s.substitutes),
        ..s
    }
}

// ---------------------------------------------------------------------------
// Enabling a keyboard for a language
// ---------------------------------------------------------------------------

/// The predicate a tag-to-keyboards entry's key is matched by.
pub open spec fn item_entry_key_is(k: Seq<char>) -> spec_fn((Seq<char>, Seq<InputListItem>)) -> bool {
    |e: (Seq<char>, Seq<InputListItem>)| e.0 == k
}

/// Whether a list of texts parses, item for item, to a list of keyboard
/// references.
pub open spec fn texts_parse_to(ts: Seq<Seq<char>>, items: Seq<InputListItem>) -> bool {
    ts.len() == items.len() && forall|w: int|
        0 <= w < ts.len() ==> crate::types::spec_parse_item(#[trigger] ts[w]) == Some(items[w])
}

/// The coupling between the ordered map's textual entries and the keyboard
/// references they stand for: same tags in the same order, every text
/// parsing to its reference.
pub open spec fn entries_parse_to(
    es: Seq<(Seq<char>, Seq<Seq<char>>)>,
    m: Seq<(Seq<char>, Seq<InputListItem>)>,
) -> bool {
    es.len() == m.len() && forall|k: int|
        0 <= k < es.len() ==> (#[trigger] es[k]).0 == m[k].0 && texts_parse_to(es[k].1, m[k].1)
}

/// The canonical texts of a list of items parse back to the items.
proof fn lemma_texts_of_parse(items: Seq<InputListItem>)
    ensures
        texts_parse_to(crate::types::spec_texts_of(items), items),
{
    assert forall|w: int|
        0 <= w < items.len() implies crate::types::spec_parse_item(
        #[trigger] crate::types::spec_texts_of(items)[w],
    ) == Some(items[w]) by {
        crate::types::lemma_item_roundtrip(items[w]);
    }
}

/// Coupled entry lists agree on where any key first occurs.
proof fn lemma_entries_first_match(
    es: Seq<(Seq<char>, Seq<Seq<char>>)>,
    m: Seq<(Seq<char>, Seq<InputListItem>)>,
    k: Seq<char>,
)
    requires
        entries_parse_to(es, m),
    ensures
        crate::state::first_match(es, crate::ordered_map::entry_key_is(k))
            == crate::state::first_match(m, item_entry_key_is(k)),
    decreases m.len(),
{
    if m.len() == 0 {
    } else {
        assert(entries_parse_to(es.drop_first(), m.drop_first())) by {
            assert forall|i: int|
                0 <= i < es.drop_first().len() implies (#[trigger] es.drop_first()[i]).0
                == m.drop_first()[i].0 && texts_parse_to(
                es.drop_first()[i].1,
                m.drop_first()[i].1,
            ) by {
                assert(es.drop_first()[i] == es[i + 1]);
                assert(m.drop_first()[i] == m[i + 1]);
            }
        }
        lemma_entries_first_match(es.drop_first(), m.drop_first(), k);
        assert(es[0].0 == m[0].0);
    }
}

/// One insertion into the tag-to-keyboards map: an existing tag keeps its
/// place and its list is replaced, a new tag goes last.
pub open spec fn spec_entry_insert(
    m: Seq<(Seq<char>, Seq<InputListItem>)>,
    tag: Seq<char>,
    items: Seq<InputListItem>,
) -> Seq<(Seq<char>, Seq<InputListItem>)> {
    let j = crate::state::first_match(m, item_entry_key_is(tag));
    if j >= 0 {
        m.update(j, (tag, items))
    } else {
        m.push((tag, items))
    }
}

/// The tag-to-keyboards map the enable flow snapshots: every enabled
/// language with its methods, inserted in language order.
pub open spec fn spec_build_map(langs: Seq<ProfileView>) -> Seq<(Seq<char>, Seq<InputListItem>)>
    decreases langs.len(),
{
    if langs.len() == 0 {
        Seq::empty()
    } else {
        spec_entry_insert(spec_build_map(langs.drop_last()), langs.last().tag, langs.last().methods)
    }
}

/// Injects the new keyboard reference: appended to its language's list when
/// the language is in the map, else as a fresh entry at the end.
pub open spec fn spec_inject_tip(
    m: Seq<(Seq<char>, Seq<InputListItem>)>,
    tag: Seq<char>,
    tip: InputListItem,
) -> Seq<(Seq<char>, Seq<InputListItem>)> {
    let j = crate::state::first_match(m, item_entry_key_is(tag));
    if j >= 0 {
        m.update(j, (tag, m[j].1.push(tip)))
    } else {
        m.push((tag, seq![tip]))
    }
}

/// Pushes each map entry through the install primitive in map order,
/// skipping languages whose tag no locale is known for.
pub open spec fn spec_apply_map(s: StateView, m: Seq<(Seq<char>, Seq<InputListItem>)>) -> StateView
    decreases m.len(),
{
    if m.len() == 0 {
        s
    } else {
        let s1 = spec_apply_map(s, m.drop_last());
        let e = m.last();
        if spec_lcid_lookup(s.locales, e.0) is Some {
            spec_install_layout(s1, e.1)
        } else {
            s1
        }
    }
}

/// Writes a cached display name into the profile for `tag`, when one was
/// supplied and the language is enabled.
pub open spec fn spec_set_cached_name(
    s: StateView,
    tag: Seq<char>,
    name: Option<Seq<char>>,
) -> StateView {
    match name {
        None => s,
        Some(n) => {
            let j = crate::state::spec_language_idx(s.languages, tag);
            if j >= 0 {
                StateView {
                    languages: s.languages.update(
                        j,
                        ProfileView { cached_language_name: Some(n), ..s.languages[j] },
                    ),
                    ..s
                }
            } else {
                s
            }
        },
    }
}

/// The whole enable flow, step by step: regenerate first, look the keyboard
/// up, enable its language, cache the display name, snapshot the per-language
/// keyboard lists, inject the new reference, push every list through the
/// install primitive, and regenerate again. The keyboard lookup failing stops
/// the flow after the first regeneration.
pub open spec fn spec_enable(
    s: StateView,
    tag: Seq<char>,
    product_code: Seq<char>,
    lang_name: Option<Seq<char>>,
) -> StateView {
    let s1 = spec_regenerate(s);
    if !crate::keyboard::spec_has_code(s1.keyboards, product_code) {
        s1
    } else {
        let record = s1.keyboards[crate::keyboard::spec_find_by_code(s1.keyboards, product_code)];
        let s2 = crate::win8::spec_enable_language(s1, tag);
        let s3 = spec_set_cached_name(s2, tag, lang_name);
        let tip = InputListItem {
            lang_id: (spec_lcid_lookup(s.locales, tag)->0 as u16),
            tip_id: record.key_id,
        };
        let m = spec_inject_tip(spec_build_map(s3.languages), tag, tip);
        spec_regenerate(spec_apply_map(s3, m))
    }
}

/// Makes an installed keyboard selectable for a language: ensures the
/// language is enabled, appends the keyboard to the language's input-method
/// list, pushes every language's list through the install primitive, and
/// regenerates the derived tables around the whole operation. Fails with
/// `NotFound`, after the initial regeneration, when no record carries the
/// product code.
pub fn enable(
    state: &mut SystemState,
    tag: &str,
    product_code: &str,
    lang_name: Option<&str>,
) -> (r: Result<(), crate::keyboard::Error>)
    requires
        spec_lcid_lookup(old(state)@.locales, tag@) matches Some(l) && l <= 0xffff,
    ensures
        final(state)@ == spec_enable(
            old(state)@,
            tag@,
            product_code@,
            match lang_name {
                Some(n) => Some(n@),
                None => None,
            },
        ),
        r is Err <==> !crate::keyboard::spec_has_code(old(state)@.keyboards, product_code@),
        r is Err ==> r == Err::<(), crate::keyboard::Error>(crate::keyboard::Error::NotFound),
{
    regenerate_registry(state);

    let original_layout = state.active_keyboard;
    let record = match crate::state::KeyboardRegKey::find_by_product_code(state, product_code) {
        Some(v) => v,
        None => {
            return Err(crate::keyboard::Error::NotFound);
        },
    };

    crate::win8::enable_language(state, tag);

    if let Some(name) = lang_name {
        if let Some(lrk) = crate::language::LanguageRegKey::find_by_tag(state, tag) {
            lrk.set_language_name(state, name);
        }
    }
    let ghost s3 = state@;
    proof {
        let gs0 = old(state)@;
        let gs1 = spec_regenerate(gs0);
        assert(crate::keyboard::spec_has_code(gs1.keyboards, product_code@));
        let gs2 = crate::win8::spec_enable_language(gs1, tag@);
        let gname = match lang_name {
            Some(n) => Some(n@),
            None => None,
        };
        assert(s3 == spec_set_cached_name(gs2, tag@, gname));
    }

    let lcid: u32 = match state.lcid_from_bcp47(tag) {
        Some(l) => l,
        None => {
            proof {
                assert(false);
            }
            0
        },
    };

    // The new reference, in the form the install primitive takes.
    let mut tip_text = crate::types::hex_string(lcid, 4, true);
    proof {
        reveal_strlit(":");
    }
    tip_text.append(":");
    let key_text = record.regkey_id();
    tip_text.append(key_text.as_str());
    let ghost gtip = InputListItem { lang_id: lcid as u16, tip_id: record.key_id };
    proof {
        crate::types::lemma_pow16_values();
        crate::types::lemma_hex_roundtrip(lcid as nat, 4, true);
        crate::types::lemma_hex_roundtrip(record.key_id as nat, 8, false);
        assert(":"@ =~= seq![':']);
        let t = tip_text@;
        assert(t.subrange(0, 4) =~= crate::types::spec_hex(lcid as nat, 4, true));
        assert(t.subrange(5, 13) =~= crate::types::spec_hex(record.key_id as nat, 8, false));
        assert(t[4] == ':');
        assert(crate::types::spec_parse_item(tip_text@) == Some(gtip));
    }

    // Snapshot every language's keyboard list into the ordered map.
    let kbs: Vec<(String, Vec<String>)> = crate::win8::enabled_keyboards(state);
    let mut map = crate::ordered_map::tip_map_new();
    let mut i: usize = 0;
    while i < kbs.len()
        invariant
            0 <= i <= kbs@.len(),
            s3 == state@,
            kbs@.len() == s3.languages.len(),
            forall|j: int|
                0 <= j < kbs@.len() ==> (#[trigger] kbs@[j]).0@ == s3.languages[j].tag
                    && crate::state::string_views(kbs@[j].1@) == crate::types::spec_texts_of(
                    s3.languages[j].methods,
                ),
            entries_parse_to(
                crate::ordered_map::map_entries(map),
                spec_build_map(s3.languages.take(i as int)),
            ),
        decreases kbs@.len() - i,
    {
        let t = kbs[i].0.clone();
        let texts = crate::state::copy_strings(&kbs[i].1);
        let ghost pre = spec_build_map(s3.languages.take(i as int));
        let ghost es = crate::ordered_map::map_entries(map);
        proof {
            lemma_entries_first_match(es, pre, t@);
        }
        crate::ordered_map::tip_map_insert(&mut map, t, texts);
        i = i + 1;
        proof {
            assert(s3.languages.take(i as int).drop_last() =~= s3.languages.take(i - 1));
            assert(s3.languages.take(i as int).last() == s3.languages[i - 1]);
            let tag_i = s3.languages[i - 1].tag;
            let methods_i = s3.languages[i - 1].methods;
            let j = crate::state::first_match(pre, item_entry_key_is(tag_i));
            crate::state::lemma_first_match(pre, item_entry_key_is(tag_i));
            lemma_texts_of_parse(methods_i);
            let es2 = crate::ordered_map::map_entries(map);
            let m2 = spec_build_map(s3.languages.take(i as int));
            assert(m2 == spec_entry_insert(pre, tag_i, methods_i));
            assert(entries_parse_to(es2, m2)) by {
                assert forall|w: int|
                    0 <= w < es2.len() implies (#[trigger] es2[w]).0 == m2[w].0 && texts_parse_to(
                    es2[w].1,
                    m2[w].1,
                ) by {
                    if j >= 0 {
                        if w != j {
                            assert(es2[w] == es[w]);
                            assert(m2[w] == pre[w]);
                        }
                    } else {
                        if w < es.len() {
                            assert(es2[w] == es[w]);
                            assert(m2[w] == pre[w]);
                        }
                    }
                }
            }
        }
    }
    proof {
        assert(s3.languages.take(s3.languages.len() as int) =~= s3.languages);
    }
    let ghost bm = spec_build_map(s3.languages);

    // Inject the new reference into its language's list.
    let tag_owned: String = tag.to_owned();
    let ghost j_inject = crate::state::first_match(bm, item_entry_key_is(tag@));
    let ghost gtip_text = tip_text;
    let ghost es_full = crate::ordered_map::map_entries(map);
    proof {
        lemma_entries_first_match(es_full, bm, tag@);
        crate::state::lemma_first_match(bm, item_entry_key_is(tag@));
    }
    let new_texts: Vec<String> = match crate::ordered_map::tip_map_get(&map, &tag_owned) {
        Some(existing) => {
            let mut v = crate::state::copy_strings(existing);
            let ghost gcopies = v@;
            v.push(tip_text);
            proof {
                crate::state::lemma_string_views_push(gcopies, gtip_text);
                assert(texts_parse_to(
                    crate::state::string_views(v@),
                    bm[j_inject].1.push(gtip),
                )) by {
                    let ts = crate::state::string_views(v@);
                    let its = bm[j_inject].1.push(gtip);
                    assert(ts == es_full[j_inject].1.push(gtip_text@));
                    assert forall|w: int|
                        0 <= w < ts.len() implies crate::types::spec_parse_item(#[trigger] ts[w])
                        == Some(its[w]) by {
                        if w < ts.len() - 1 {
                            assert(ts[w] == es_full[j_inject].1[w]);
                            assert(its[w] == bm[j_inject].1[w]);
                        } else {
                            assert(ts[w] == gtip_text@);
                            assert(its[w] == gtip);
                        }
                    }
                }
            }
            v
        },
        None => {
            let mut v: Vec<String> = Vec::new();
            let ghost gempty = v@;
            v.push(tip_text);
            proof {
                crate::state::lemma_string_views_push(gempty, gtip_text);
                assert(texts_parse_to(crate::state::string_views(v@), seq![gtip])) by {
                    let ts = crate::state::string_views(v@);
                    assert(ts =~= seq![gtip_text@]);
                    assert(ts[0] == gtip_text@);
                    assert(seq![gtip][0] == gtip);
                }
            }
            v
        },
    };
    let ghost gnew_texts = crate::state::string_views(new_texts@);
    crate::ordered_map::tip_map_insert(&mut map, tag_owned, new_texts);
    let ghost m1 = spec_inject_tip(bm, tag@, gtip);
    proof {
        let es2 = crate::ordered_map::map_entries(map);
        assert(entries_parse_to(es2, m1)) by {
            assert forall|w: int|
                0 <= w < es2.len() implies (#[trigger] es2[w]).0 == m1[w].0 && texts_parse_to(
                es2[w].1,
                m1[w].1,
            ) by {
                if j_inject >= 0 {
                    if w != j_inject {
                        assert(es2[w] == es_full[w]);
                        assert(m1[w] == bm[w]);
                    }
                } else {
                    if w < es_full.len() {
                        assert(es2[w] == es_full[w]);
                        assert(m1[w] == bm[w]);
                    }
                }
            }
        }
    }

    // Push every language's list through the install primitive, skipping
    // languages without a locale: one bad language must not block the rest.
    let total = crate::ordered_map::tip_map_len(&map);
    let mut k: usize = 0;
    proof {
        assert(spec_apply_map(s3, m1.take(0)) =~= s3);
    }
    while k < total
        invariant
            0 <= k <= m1.len(),
            total == m1.len(),
            entries_parse_to(crate::ordered_map::map_entries(map), m1),
            state@ == spec_apply_map(s3, m1.take(k as int)),
            state@.locales == s3.locales,
            state@.active_keyboard == s3.active_keyboard,
        decreases m1.len() - k,
    {
        let entry = match crate::ordered_map::tip_map_get_index(&map, k) {
            Some(p) => p,
            None => {
                proof {
                    assert(false);
                }
                return Err(crate::keyboard::Error::NotFound);
            },
        };
        let (lang_tag, texts) = entry;
        proof {
            assert(m1.take(k + 1).drop_last() =~= m1.take(k as int));
            assert(m1.take(k + 1).last() == m1[k as int]);
            assert(crate::ordered_map::map_entries(map)[k as int].0 == m1[k as int].0);
            assert(texts_parse_to(
                crate::ordered_map::map_entries(map)[k as int].1,
                m1[k as int].1,
            ));
        }
        match state.lcid_from_bcp47(lang_tag.as_str()) {
            Some(_) => {
                proof {
                    assert(crate::state::string_views(texts@) == crate::ordered_map::map_entries(
                        map,
                    )[k as int].1);
                    assert(crate::state::string_views(texts@).len() == texts@.len());
                    assert(texts@.len() == m1[k as int].1.len());
                    assert forall|w: int|
                        0 <= w < texts@.len() implies crate::types::spec_parse_item(
                        #[trigger] texts@[w]@,
                    ) is Some by {
                        assert(texts@[w]@ == crate::state::string_views(texts@)[w]);
                    }
                }
                let inputs = match InputList::parse_all(texts) {
                    Some(l) => l,
                    None => {
                        proof {
                            assert(false);
                        }
                        return Err(crate::keyboard::Error::NotFound);
                    },
                };
                proof {
                    assert forall|w: int| 0 <= w < inputs@.len() implies inputs@[w] == m1[
                        k as int
                    ].1[w] by {
                        assert(texts@[w]@ == crate::state::string_views(texts@)[w]);
                        assert(inputs@[w] == crate::types::spec_parse_item(texts@[w]@)->0);
                    }
                    assert(inputs@ =~= m1[k as int].1);
                }
                install_layout(state, inputs, 0);
            },
            None => {},
        }
        k = k + 1;
    }
    proof {
        assert(m1.take(m1.len() as int) =~= m1);
    }

    regenerate_registry(state);

    state.active_keyboard = original_layout;
    proof {
        let gs0 = old(state)@;
        let gs1 = spec_regenerate(gs0);
        let grecord = gs1.keyboards[crate::keyboard::spec_find_by_code(
            gs1.keyboards,
            product_code@,
        )];
        assert(record@ == grecord);
        assert(gtip == InputListItem {
            lang_id: (spec_lcid_lookup(gs0.locales, tag@)->0 as u16),
            tip_id: grecord.key_id,
        });
        assert(bm == spec_build_map(s3.languages));
        assert(m1 == spec_inject_tip(bm, tag@, gtip));
        assert(state@.active_keyboard == spec_regenerate(spec_apply_map(s3, m1)).active_keyboard);
        assert(state@ =~= spec_regenerate(spec_apply_map(s3, m1)));
        assert(state@ =~= spec_enable(
            old(state)@,
            tag@,
            product_code@,
            match lang_name {
                Some(n) => Some(n@),
                None => None,
            },
        ));
    }
    Ok(())
}

// ---------------------------------------------------------------------------
// Mirroring into the default-user hive
// ---------------------------------------------------------------------------

/// Upserting one profile into the default-user tree: an existing subtree for
/// the tag receives the new values, a missing one is created.
pub open spec fn spec_upsert_profile(dlangs: Seq<ProfileView>, p: ProfileView) -> Seq<
    ProfileView,
> {
    let j = crate::state::spec_language_idx(dlangs, p.tag);
    if j >= 0 {
        dlangs.update(j, p)
    } else {
        dlangs.push(p)
    }
}

/// Upserting one substitute value by its name.
pub open spec fn spec_upsert_sub(
    dsubs: Seq<crate::state::SubstituteEntry>,
    sub: crate::state::SubstituteEntry,
) -> Seq<crate::state::SubstituteEntry> {
    let j = crate::state::first_match(
        dsubs,
        |q: crate::state::SubstituteEntry| q.id == sub.id,
    );
    if j >= 0 {
        dsubs.update(j, sub)
    } else {
        dsubs.push(sub)
    }
}

/// Copying the whole Substitutes table over, value by value, in order.
pub open spec fn spec_upsert_subs(
    dsubs: Seq<crate::state::SubstituteEntry>,
    subs: Seq<crate::state::SubstituteEntry>,
) -> Seq<crate::state::SubstituteEntry>
    decreases subs.len(),
{
    if subs.len() == 0 {
        dsubs
    } else {
        spec_upsert_sub(spec_upsert_subs(dsubs, subs.drop_last()), subs.last())
    }
}

/// Mirroring a language into the default-user template: the tag's profile
/// values and the whole Substitutes table are copied over, and the mirrored
/// hive's derived tables are regenerated from its own profile tree.
pub open spec fn spec_enable_default_user_lang(s: StateView, tag: Seq<char>) -> StateView {
    let p = s.languages[crate::state::spec_language_idx(s.languages, tag)];
    let dl = spec_upsert_profile(s.default_user.languages, p);
    let ds = spec_upsert_subs(s.default_user.substitutes, s.substitutes);
    StateView {
        default_user: crate::state::DefaultUserView {
            languages: dl,
            substitutes: spec_regen_subs(spec_sorted_keyboard_ids(dl), ds),
            preload: spec_regen_preload(spec_sorted_keyboard_ids(dl), ds),
        },
        ..s
    }
}

/// Mirrors an enabled language into the default-user template hive, so new
/// accounts start with it: copies the tag's profile values and the
/// Substitutes table over, then regenerates the mirrored Preload table.
pub fn enable_default_user_lang(state: &mut SystemState, tag: &str)
    requires
        crate::state::spec_has_language(old(state)@.languages, tag@),
    ensures
        final(state)@ == spec_enable_default_user_lang(old(state)@, tag@),
{
    let idx = match state.find_language(tag) {
        Some(i) => i,
        None => {
            proof {
                assert(false);
            }
            0
        },
    };
    let p = state.languages[idx].duplicate();
    let ghost gp = p@;

    // Upsert the profile into the default-user tree.
    let ghost dlangs = state@.default_user.languages;
    let ghost ptag = |q: ProfileView| q.tag == gp.tag;
    let mut j: usize = 0;
    let mut placed = false;
    while j < state.default_user.languages.len()
        invariant
            0 <= j <= state.default_user.languages@.len(),
            !placed ==> gp == p@ && dlangs == state@.default_user.languages,
            ptag == (|q: ProfileView| q.tag == gp.tag),
            dlangs.len() == state.default_user.languages@.len(),
            !placed ==> forall|m: int| 0 <= m < j ==> !ptag(#[trigger] dlangs[m]),
            !placed ==> forall|m: int|
                0 <= m < dlangs.len() ==> dlangs[m] == #[trigger] state.default_user.languages@[
                    m
                ]@,
            placed ==> state@.default_user.languages == spec_upsert_profile(dlangs, gp),
            state@.languages == old(state)@.languages,
            state@.keyboards == old(state)@.keyboards,
            state@.locales == old(state)@.locales,
            state@.substitutes == old(state)@.substitutes,
            state@.preload == old(state)@.preload,
            state@.system32_files == old(state)@.system32_files,
            state@.active_keyboard == old(state)@.active_keyboard,
            state@.default_user.substitutes == old(state)@.default_user.substitutes,
            state@.default_user.preload == old(state)@.default_user.preload,
            dlangs == old(state)@.default_user.languages,
        decreases state.default_user.languages@.len() - j,
    {
        if !placed {
            if state.default_user.languages[j].tag == p.tag {
                proof {
                    crate::state::lemma_first_match_at(dlangs, ptag, j as int);
                }
                let replacement = LanguageProfile {
                    tag: p.tag.clone(),
                    cached_language_name: crate::state::copy_opt_string(&p.cached_language_name),
                    transient_lang_id: p.transient_lang_id,
                    features_to_install: p.features_to_install,
                    methods: copy_items(&p.methods),
                };
                let ghost gr = replacement;
                state.default_user.languages.set(j, replacement);
                placed = true;
                proof {
                    assert(gr@ =~= gp);
                    assert(state@.default_user.languages =~= dlangs.update(j as int, gp));
                }
            }
        }
        j = j + 1;
    }
    if !placed {
        proof {
            crate::state::lemma_first_match(dlangs, ptag);
        }
        state.default_user.languages.push(p);
        proof {
            assert(state@.default_user.languages =~= dlangs.push(gp));
        }
    }
    proof {
        assert(state@.default_user.languages == spec_upsert_profile(dlangs, gp));
    }

    // Copy every Substitutes value over, name by name.
    let ghost gsubs = state@.substitutes;
    let ghost dsubs0 = state@.default_user.substitutes;
    let mut i: usize = 0;
    proof {
        assert(gsubs.take(0) =~= Seq::<crate::state::SubstituteEntry>::empty());
    }
    while i < state.substitutes.len()
        invariant
            0 <= i <= state.substitutes@.len(),
            gsubs == state@.substitutes,
            gsubs.len() == state.substitutes@.len(),
            forall|m: int| 0 <= m < gsubs.len() ==> gsubs[m] == #[trigger] state.substitutes@[m],
            state@.default_user.substitutes == spec_upsert_subs(dsubs0, gsubs.take(i as int)),
            state@.languages == old(state)@.languages,
            state@.keyboards == old(state)@.keyboards,
            state@.locales == old(state)@.locales,
            state@.preload == old(state)@.preload,
            state@.system32_files == old(state)@.system32_files,
            state@.active_keyboard == old(state)@.active_keyboard,
            state@.default_user.languages == spec_upsert_profile(dlangs, gp),
            state@.default_user.preload == old(state)@.default_user.preload,
            dlangs == old(state)@.default_user.languages,
            gp == spec_profile_of(old(state)@, tag@),
        decreases state.substitutes@.len() - i,
    {
        let sub = state.substitutes[i];
        let ghost dcur = state@.default_user.substitutes;
        let ghost pid = |q: crate::state::SubstituteEntry| q.id == sub.id;
        let mut k: usize = 0;
        let mut done = false;
        while k < state.default_user.substitutes.len()
            invariant
                0 <= k <= state.default_user.substitutes@.len(),
                pid == (|q: crate::state::SubstituteEntry| q.id == sub.id),
                !done ==> dcur == state@.default_user.substitutes && dcur.len()
                    == state.default_user.substitutes@.len(),
                !done ==> forall|m: int| 0 <= m < k ==> !pid(#[trigger] dcur[m]),
                !done ==> forall|m: int|
                    0 <= m < dcur.len() ==> dcur[m] == #[trigger] state.default_user.substitutes@[
                        m
                    ],
                done ==> state@.default_user.substitutes == spec_upsert_sub(dcur, sub),
                state@.languages == old(state)@.languages,
                state@.keyboards == old(state)@.keyboards,
                state@.locales == old(state)@.locales,
                state@.substitutes == gsubs,
                state@.preload == old(state)@.preload,
                state@.system32_files == old(state)@.system32_files,
                state@.active_keyboard == old(state)@.active_keyboard,
                state@.default_user.languages == spec_upsert_profile(dlangs, gp),
                state@.default_user.preload == old(state)@.default_user.preload,
            decreases state.default_user.substitutes@.len() - k,
        {
            if !done {
                if state.default_user.substitutes[k].id == sub.id {
                    proof {
                        crate::state::lemma_first_match_at(dcur, pid, k as int);
                    }
                    state.default_user.substitutes.set(k, sub);
                    done = true;
                    proof {
                        assert(state@.default_user.substitutes =~= dcur.update(k as int, sub));
                    }
                }
            }
            k = k + 1;
        }
        if !done {
            proof {
                crate::state::lemma_first_match(dcur, pid);
            }
            state.default_user.substitutes.push(sub);
            proof {
                assert(state@.default_user.substitutes =~= dcur.push(sub));
            }
        }
        i = i + 1;
        proof {
            assert(gsubs.take(i as int).drop_last() =~= gsubs.take(i - 1));
            assert(gsubs.take(i as int).last() == gsubs[i - 1]);
        }
    }
    proof {
        assert(gsubs.take(gsubs.len() as int) =~= gsubs);
    }

    // Regenerate the mirrored hive's derived tables from its own tree.
    regenerate_given_registry(
        &state.default_user.languages,
        &mut state.default_user.substitutes,
        &mut state.default_user.preload,
    );
    proof {
        assert(state@.default_user =~= spec_enable_default_user_lang(
            old(state)@,
            tag@,
        ).default_user);
        assert(state@ =~= spec_enable_default_user_lang(old(state)@, tag@));
    }
}

/// The profile of an enabled language.
pub open spec fn spec_profile_of(s: StateView, tag: Seq<char>) -> ProfileView {
    s.languages[crate::state::spec_language_idx(s.languages, tag)]
}

// ---------------------------------------------------------------------------
// Pruning dangling keyboard references
// ---------------------------------------------------------------------------

/// Whether an enabled input method survives the prune: anything not custom
/// stays, and a custom reference stays only when a custom record with its
/// identifier is still installed.
pub open spec fn spec_keep_kbid(kbds: Seq<KbdView>, it: InputListItem) -> bool {
    !is_custom_id(it.tip_id) || exists|j: int|
        0 <= j < kbds.len() && (#[trigger] kbds[j].key_id) == it.tip_id && is_custom_id(
            kbds[j].key_id,
        )
}

/// The enabled input methods that survive the prune, in collection order.
pub open spec fn spec_filtered_kbids(s: StateView) -> Seq<InputListItem> {
    spec_collect_items(s.languages).filter(|it: InputListItem| spec_keep_kbid(s.keyboards, it))
}

/// Pruning rebuilds the whole enabled set: every language is cleared and the
/// surviving references are installed again.
pub open spec fn spec_remove_invalid_kbids(s: StateView) -> StateView {
    spec_install_layout(spec_clear_inputs(s), spec_filtered_kbids(s))
}

/// Whether a custom record with this key identifier is installed.
fn kbid_installed(state: &SystemState, id: u32) -> (r: bool)
    ensures
        r == exists|j: int|
            0 <= j < state@.keyboards.len() && (#[trigger] state@.keyboards[j].key_id) == id
                && is_custom_id(state@.keyboards[j].key_id),
{
    let mut j: usize = 0;
    while j < state.keyboards.len()
        invariant
            0 <= j <= state.keyboards@.len(),
            state@.keyboards.len() == state.keyboards@.len(),
            forall|m: int|
                0 <= m < state.keyboards@.len() ==> #[trigger] state@.keyboards[m]
                    == state.keyboards@[m]@,
            forall|m: int|
                0 <= m < j ==> !((#[trigger] state@.keyboards[m].key_id) == id && is_custom_id(
                    state@.keyboards[m].key_id,
                )),
        decreases state.keyboards@.len() - j,
    {
        let kid = state.keyboards[j].key_id;
        if kid == id && 0xa0000000 <= kid && kid < 0xb0000000 {
            proof {
                assert((state@.keyboards[j as int].key_id) == id && is_custom_id(
                    state@.keyboards[j as int].key_id,
                ));
            }
            return true;
        }
        j = j + 1;
    }
    false
}

/// Retains only input methods that are OS-native or that reference a still
/// installed custom keyboard, then clears every language and reinstalls the
/// filtered list: a full rebuild, never an incremental delete.
pub fn remove_invalid_kbids(state: &mut SystemState)
    ensures
        final(state)@ == spec_remove_invalid_kbids(old(state)@),
{
    let enabled: Vec<InputListItem> = enabled_input_methods(state).into_inner();
    let ghost genabled = enabled@;
    let ghost gkbds = state@.keyboards;
    let ghost keepp = |it: InputListItem| spec_keep_kbid(gkbds, it);
    let mut filtered: Vec<InputListItem> = Vec::new();
    let mut i: usize = 0;
    proof {
        reveal(Seq::filter);
        assert(filtered@ =~= genabled.take(0).filter(keepp));
    }
    while i < enabled.len()
        invariant
            0 <= i <= enabled@.len(),
            genabled == enabled@,
            gkbds == state@.keyboards,
            keepp == (|it: InputListItem| spec_keep_kbid(gkbds, it)),
            filtered@ == genabled.take(i as int).filter(keepp),
        decreases enabled@.len() - i,
    {
        let it = enabled[i];
        proof {
            assert(genabled.take(i + 1) =~= genabled.take(i as int).push(genabled[i as int]));
            lemma_filter_push(genabled.take(i as int), keepp, genabled[i as int]);
        }
        let custom = 0xa0000000 <= it.tip_id && it.tip_id < 0xb0000000;
        if !custom || kbid_installed(state, it.tip_id) {
            filtered.push(it);
        } else {
            proof {
                assert(!keepp(genabled[i as int]));
            }
        }
        i = i + 1;
    }
    proof {
        assert(genabled.take(genabled.len() as int) =~= genabled);
    }
    remove_inputs_for_all_languages(state);
    install_layout(state, InputList::from_items(filtered), 0);
    proof {
        assert(state@ =~= spec_remove_invalid_kbids(old(state)@));
    }
}

} // verus!
