//! The library's standing guarantees, stated and proved over the same spec
//! functions the operations' contracts use.

use vstd::prelude::*;

use crate::keyboard::{
    spec_has_code, spec_install, spec_max_custom_seq, spec_new_record, spec_tag_lcid16,
};
use crate::state::{
    id_high16, id_low16, is_custom_id, lemma_first_match, lemma_make_id, KbdView, StateView,
    SubstituteEntry,
};
use crate::types::InputListItem;
use crate::win8::{spec_enable_language, spec_set_user_languages, spec_tags_of};

verus! {

// ---------------------------------------------------------------------------
// Uniqueness of installed records
// ---------------------------------------------------------------------------

/// No two records that carry a product code carry the same one.
pub open spec fn spec_unique_codes(kbds: Seq<KbdView>) -> bool {
    forall|i: int, j: int|
        0 <= i < j < kbds.len() && (#[trigger] kbds[i]).product_code is Some
            && (#[trigger] kbds[j]).product_code is Some ==> kbds[i].product_code
            != kbds[j].product_code
}

/// No two records share a registry key identifier.
pub open spec fn spec_unique_ids(kbds: Seq<KbdView>) -> bool {
    forall|i: int, j: int|
        0 <= i < j < kbds.len() ==> (#[trigger] kbds[i]).key_id != (#[trigger] kbds[j]).key_id
}

/// After any sequence of installs, no two records share a product code and
/// no two share a registry key identifier: each successful install preserves
/// both, so the two hold inductively from any state that has them. The one
/// state left out is a locale whose reserved sequence range is exhausted
/// (highest sequence number at the end of the reserved range), where the
/// allocator would step outside the custom space.
pub proof fn lemma_install_preserves_uniqueness(
    s: StateView,
    tag: Seq<char>,
    layout_name: Seq<char>,
    product_code: Seq<char>,
    layout_file: Seq<char>,
    display_name: Option<Seq<char>>,
)
    requires
        spec_unique_codes(s.keyboards),
        spec_unique_ids(s.keyboards),
        !spec_has_code(s.keyboards, product_code),
        spec_max_custom_seq(s.keyboards, spec_tag_lcid16(s, tag)) < 0xafff,
    ensures
        spec_unique_codes(
            spec_install(s, tag, layout_name, product_code, layout_file, display_name).keyboards,
        ),
        spec_unique_ids(
            spec_install(s, tag, layout_name, product_code, layout_file, display_name).keyboards,
        ),
{
    let kbds = s.keyboards;
    let lcid = spec_tag_lcid16(s, tag);
    let new = spec_new_record(
        s,
        tag,
        match display_name {
            Some(d) => d,
            None => s.locales[crate::state::spec_locale_idx(s.locales, tag)].name,
        },
        product_code,
        layout_file,
        layout_name,
    );
    let out = kbds.push(new);

    // The new product code is fresh: the scan found no record carrying it.
    lemma_first_match(kbds, |k: KbdView| k.product_code == Some(product_code));
    assert forall|i: int, j: int|
        0 <= i < j < out.len() && (#[trigger] out[i]).product_code is Some && (
        #[trigger] out[j]).product_code is Some implies out[i].product_code
        != out[j].product_code by {
        if j == kbds.len() {
            assert(out[i] == kbds[i]);
        }
    }

    // The new key identifier is fresh: it stays inside the custom space and
    // exceeds every existing sequence number for its locale.
    let m = spec_max_custom_seq(kbds, lcid);
    crate::keyboard::lemma_max_custom_seq_bounds(kbds, lcid);
    let hi: u32 = if m < 0 {
        0xa000u32
    } else {
        (m + 1) as u32
    };
    assert(lcid < 0x10000);
    lemma_make_id(hi, lcid);
    assert(new.key_id == crate::state::spec_make_id(hi, lcid));
    assert(0xa000 <= hi < 0xb000);
    assert(is_custom_id(new.key_id)) by {
        assert(0xa000 * 0x10000 <= hi * 0x10000 + lcid < 0xb000 * 0x10000) by (nonlinear_arith)
            requires 0xa000 <= hi < 0xb000, 0 <= lcid < 0x10000;
    }
    assert forall|i: int, j: int|
        0 <= i < j < out.len() implies (#[trigger] out[i]).key_id != (
    #[trigger] out[j]).key_id by {
        if j == kbds.len() {
            assert(out[i] == kbds[i]);
            if kbds[i].key_id == new.key_id {
                assert(id_high16(kbds[i].key_id) == hi && id_low16(kbds[i].key_id) == lcid);
                assert(is_custom_id(kbds[i].key_id));
                crate::keyboard::lemma_max_custom_seq_ge(kbds, lcid, i);
                assert(false);
            }
        }
    }
}

// ---------------------------------------------------------------------------
// Monotonic layout-id allocation
// ---------------------------------------------------------------------------

/// The next layout id is strictly greater than every layout id currently
/// stored, however many installs came before: the id space is global, never
/// scoped to one locale.
pub proof fn lemma_layout_id_monotonic(kbds: Seq<KbdView>, i: int)
    requires
        0 <= i < kbds.len(),
    ensures
        crate::keyboard::spec_max_layout_id(kbds) + 1 > crate::keyboard::spec_stored_layout_id(
            kbds[i],
        ),
{
    crate::keyboard::lemma_max_layout_id_ge(kbds, i);
}

// ---------------------------------------------------------------------------
// Idempotent language enablement
// ---------------------------------------------------------------------------

/// Everything a committed profile list guarantees: each profile's tag is the
/// tag it was committed for, is known to the locale table, and carries a
/// features value.
proof fn lemma_committed_profiles(s: StateView, tags: Seq<Seq<char>>)
    ensures
        ({
            let out = spec_set_user_languages(s, tags).languages;
            &&& forall|w: int|
                0 <= w < out.len() ==> crate::state::spec_has_locale(
                    s.locales,
                    (#[trigger] out[w]).tag,
                )
            &&& forall|w: int| 0 <= w < out.len() ==> (#[trigger] out[w]).features_to_install is Some
            &&& forall|w: int|
                0 <= w < out.len() ==> #[trigger] out[w] == crate::win8::spec_with_features(
                    crate::win8::spec_profile_for(s.languages, out[w].tag),
                )
        }),
{
    broadcast use vstd::seq_lib::group_seq_properties;

    let keepp = |t: Seq<char>| crate::state::spec_has_locale(s.locales, t);
    let kept = tags.filter(keepp);
    let out = spec_set_user_languages(s, tags).languages;
    assert forall|w: int| 0 <= w < out.len() implies crate::state::spec_has_locale(
        s.locales,
        (#[trigger] out[w]).tag,
    ) && (#[trigger] out[w]).features_to_install is Some && out[w]
        == crate::win8::spec_with_features(
        crate::win8::spec_profile_for(s.languages, out[w].tag),
    ) by {
        tags.lemma_filter_pred(keepp, w);
        assert(out[w] == crate::win8::spec_with_features(
            crate::win8::spec_profile_for(s.languages, kept[w]),
        ));
        lemma_first_match(s.languages, |p: crate::state::ProfileView| p.tag == kept[w]);
        assert(out[w].tag == kept[w]);
    }
}

/// A list whose elements all pass the filter is its own filtration.
proof fn lemma_filter_all<A>(s: Seq<A>, p: spec_fn(A) -> bool)
    requires
        forall|i: int| 0 <= i < s.len() ==> p(#[trigger] s[i]),
    ensures
        s.filter(p) == s,
    decreases s.len(),
{
    reveal(Seq::filter);
    if s.len() > 0 {
        lemma_filter_all(s.drop_last(), p);
        assert(forall|i: int| 0 <= i < s.len() - 1 ==> s.drop_last()[i] == #[trigger] s[i]);
        assert(s.filter(p) =~= s);
    }
}

/// Enabling a language twice in a row yields the same enabled-language set
/// as enabling it once.
pub proof fn lemma_enable_language_idempotent(s: StateView, tag: Seq<char>)
    ensures
        spec_enable_language(spec_enable_language(s, tag), tag) == spec_enable_language(s, tag),
{
    if crate::state::spec_has_language(s.languages, tag) {
    } else {
        let s1 = spec_enable_language(s, tag);
        let tags = spec_tags_of(s.languages).push(tag);
        let keepp = |t: Seq<char>| crate::state::spec_has_locale(s.locales, t);
        let kept = tags.filter(keepp);
        lemma_committed_profiles(s, tags);
        let out = s1.languages;
        if crate::state::spec_has_language(out, tag) {
        } else {
            // The tag itself was dropped by validation; committing the same
            // profiles again reproduces them exactly.
            assert(s1.locales == s.locales);
            let tags2 = spec_tags_of(out).push(tag);
            let keepp2 = |t: Seq<char>| crate::state::spec_has_locale(s1.locales, t);

            // The appended tag fails validation the second time too.
            lemma_first_match(out, |p: crate::state::ProfileView| p.tag == tag);
            assert(!keepp2(tag)) by {
                if keepp2(tag) {
                    // Were the tag known, the first commit would have kept it.
                    let n = tags.len() - 1;
                    assert(tags[n] == tag);
                    tags.lemma_filter_contains(keepp, n);
                    let w = choose|w: int| 0 <= w < kept.len() && kept[w] == tag;
                    assert(out[w].tag == tag);
                    assert(crate::state::spec_has_language(out, tag)) by {
                        lemma_first_match(out, |p: crate::state::ProfileView| p.tag == tag);
                        assert(!((|p: crate::state::ProfileView| p.tag == tag)(out[w])) == false);
                    }
                }
            }

            // Every committed tag passes validation again.
            assert(spec_tags_of(out).filter(keepp2) =~= spec_tags_of(out)) by {
                assert forall|w: int|
                    0 <= w < spec_tags_of(out).len() implies keepp2(
                    #[trigger] spec_tags_of(out)[w],
                ) by {
                    assert(spec_tags_of(out)[w] == out[w].tag);
                }
                lemma_filter_all(spec_tags_of(out), keepp2);
            }
            assert(tags2.filter(keepp2) =~= spec_tags_of(out)) by {
                crate::state::lemma_filter_push(spec_tags_of(out), keepp2, tag);
            }

            // Re-committing reproduces each profile: the first profile found
            // for a tag is the committed one, and the features default is
            // already written.
            let out2 = spec_enable_language(s1, tag).languages;
            assert(out2 =~= tags2.filter(keepp2).map_values(
                |t: Seq<char>| crate::win8::spec_with_features(
                    crate::win8::spec_profile_for(out, t),
                ),
            ));
            assert forall|w: int| 0 <= w < out2.len() implies #[trigger] out2[w] == out[w] by {
                let t = out[w].tag;
                assert(out2[w] == crate::win8::spec_with_features(
                    crate::win8::spec_profile_for(out, t),
                ));
                let j = crate::state::spec_language_idx(out, t);
                lemma_first_match(out, |p: crate::state::ProfileView| p.tag == t);
                assert(j >= 0);
                // The first profile with this tag equals this one: both were
                // committed from the same source profile.
                assert(out[j].tag == t);
                assert(out[j] == crate::win8::spec_with_features(
                    crate::win8::spec_profile_for(s.languages, t),
                ));
                assert(out[w] == crate::win8::spec_with_features(
                    crate::win8::spec_profile_for(s.languages, t),
                ));
                assert(crate::win8::spec_profile_for(out, t) == out[j]);
                assert(crate::win8::spec_with_features(out[j]) == out[j]);
            }
            assert(out2 =~= out);
            assert(spec_enable_language(s1, tag) =~= s1);
        }
    }
}

// ---------------------------------------------------------------------------
// Cleanup is idempotent: the keyboard layer
// ---------------------------------------------------------------------------

/// Two records may coexist unless both are custom and carry the same
/// product code.
pub open spec fn kbd_pair_ok(a: KbdView, b: KbdView) -> bool {
    !(is_custom_id(a.key_id) && is_custom_id(b.key_id) && b.product_code is Some
        && a.product_code == b.product_code)
}

/// No custom record's product code is carried by another custom record.
pub open spec fn no_dup_codes(x: Seq<KbdView>) -> bool {
    forall|i: int, j: int| 0 <= i < j < x.len() ==> kbd_pair_ok(#[trigger] x[i], #[trigger] x[j])
}

/// Every element of a filtered list comes from the list, and distinct
/// positions come from distinct positions.
proof fn lemma_filter_from<A>(s: Seq<A>, p: spec_fn(A) -> bool, i: int)
    requires
        0 <= i < s.filter(p).len(),
    ensures
        exists|m: int| 0 <= m < s.len() && s[m] == #[trigger] s.filter(p)[i],
    decreases s.len(),
{
    reveal(Seq::filter);
    broadcast use vstd::prelude::Seq::lemma_filter_len;

    if s.len() > 0 {
        let dl = s.drop_last();
        if i < dl.filter(p).len() {
            lemma_filter_from(dl, p, i);
            let m = choose|m: int| 0 <= m < dl.len() && dl[m] == dl.filter(p)[i];
            assert(s[m] == s.filter(p)[i]);
        } else {
            assert(p(s.last()) && s.filter(p)[i] == s.last());
            assert(s[s.len() - 1] == s.filter(p)[i]);
        }
    }
}

/// Distinct positions of a filtered list come from distinct positions of
/// the source.
proof fn lemma_filter_from_pair<A>(s: Seq<A>, p: spec_fn(A) -> bool, i: int, j: int)
    requires
        0 <= i < j < s.filter(p).len(),
    ensures
        exists|mi: int, mj: int|
            0 <= mi < mj < s.len() && s[mi] == s.filter(p)[i] && s[mj] == #[trigger] s.filter(
                p,
            )[j],
    decreases s.len(),
{
    reveal(Seq::filter);
    broadcast use vstd::prelude::Seq::lemma_filter_len;

    if s.len() > 0 {
        let dl = s.drop_last();
        if j < dl.filter(p).len() {
            lemma_filter_from_pair(dl, p, i, j);
            let (mi, mj) = choose|mi: int, mj: int|
                0 <= mi < mj < dl.len() && dl[mi] == dl.filter(p)[i] && dl[mj] == dl.filter(p)[j];
            assert(s[mi] == s.filter(p)[i] && s[mj] == s.filter(p)[j]);
        } else {
            assert(p(s.last()) && s.filter(p)[j] == s.last());
            lemma_filter_from(dl, p, i);
            let mi = choose|mi: int| 0 <= mi < dl.len() && dl[mi] == dl.filter(p)[i];
            assert(s[mi] == s.filter(p)[i] && s[s.len() - 1] == s.filter(p)[j]);
        }
    }
}

/// Every element of the deduplicated list comes from the list.
proof fn lemma_dedup_from(x: Seq<KbdView>, i: int)
    requires
        0 <= i < crate::keyboard::spec_dedup_keyboards(x).len(),
    ensures
        exists|m: int|
            0 <= m < x.len() && x[m] == #[trigger] crate::keyboard::spec_dedup_keyboards(x)[i],
    decreases x.len(),
{
    if x.len() > 0 {
        let dl = x.drop_last();
        let pre = crate::keyboard::spec_dedup_keyboards(dl);
        if i < pre.len() {
            lemma_dedup_from(dl, i);
            let m = choose|m: int| 0 <= m < dl.len() && dl[m] == pre[i];
            assert(x[m] == crate::keyboard::spec_dedup_keyboards(x)[i]);
        } else {
            assert(x[x.len() - 1] == crate::keyboard::spec_dedup_keyboards(x)[i]);
        }
    }
}

/// Deduplication leaves no two custom records sharing a product code.
proof fn lemma_dedup_no_dup(x: Seq<KbdView>)
    ensures
        no_dup_codes(crate::keyboard::spec_dedup_keyboards(x)),
    decreases x.len(),
{
    let out = crate::keyboard::spec_dedup_keyboards(x);
    if x.len() > 0 {
        let dl = x.drop_last();
        let pre = crate::keyboard::spec_dedup_keyboards(dl);
        lemma_dedup_no_dup(dl);
        assert forall|i: int, j: int|
            0 <= i < j < out.len() implies kbd_pair_ok(#[trigger] out[i], #[trigger] out[j]) by {
            if j == pre.len() {
                // The last record was pushed, so it is no duplicate of
                // anything earlier.
                assert(!crate::keyboard::spec_is_dup(dl, x.last()));
                if !kbd_pair_ok(out[i], out[j]) {
                    lemma_dedup_from(dl, i);
                    let m = choose|m: int| 0 <= m < dl.len() && dl[m] == pre[i];
                    assert(is_custom_id(dl[m].key_id) && dl[m].product_code
                        == x.last().product_code);
                    assert(crate::keyboard::spec_is_dup(dl, x.last()));
                }
            } else {
                assert(out[i] == pre[i] && out[j] == pre[j]);
            }
        }
    }
}

/// A list with no duplicated product codes is its own deduplication.
proof fn lemma_dedup_fixed(x: Seq<KbdView>)
    requires
        no_dup_codes(x),
    ensures
        crate::keyboard::spec_dedup_keyboards(x) == x,
    decreases x.len(),
{
    if x.len() > 0 {
        let dl = x.drop_last();
        assert(no_dup_codes(dl)) by {
            assert(forall|i: int| 0 <= i < dl.len() ==> #[trigger] dl[i] == x[i]);
        }
        lemma_dedup_fixed(dl);
        assert(!crate::keyboard::spec_is_dup(dl, x.last())) by {
            if crate::keyboard::spec_is_dup(dl, x.last()) {
                let m = choose|m: int|
                    0 <= m < dl.len() && is_custom_id(#[trigger] dl[m].key_id)
                        && dl[m].product_code == x.last().product_code;
                assert(!kbd_pair_ok(x[m], x[x.len() - 1]));
            }
        }
        assert(crate::keyboard::spec_dedup_keyboards(x) =~= x);
    }
}

/// Filtering cannot introduce a duplicated product code.
proof fn lemma_filter_no_dup(x: Seq<KbdView>, p: spec_fn(KbdView) -> bool)
    requires
        no_dup_codes(x),
    ensures
        no_dup_codes(x.filter(p)),
{
    let out = x.filter(p);
    assert forall|i: int, j: int|
        0 <= i < j < out.len() implies kbd_pair_ok(#[trigger] out[i], #[trigger] out[j]) by {
        lemma_filter_from_pair(x, p, i, j);
        let (mi, mj) = choose|mi: int, mj: int|
            0 <= mi < mj < x.len() && x[mi] == out[i] && x[mj] == out[j];
        assert(kbd_pair_ok(x[mi], x[mj]));
    }
}

/// The keyboard layer of the cleanup reaches a fixed point after one pass:
/// deduplicating and re-filtering what one pass produced changes nothing.
pub proof fn lemma_keyboard_cleanup_idempotent(s: StateView)
    ensures
        ({
            let k1 = crate::keyboard::spec_remove_invalid_dlls(
                crate::keyboard::spec_remove_duplicate_guids(s),
            ).keyboards;
            &&& crate::keyboard::spec_dedup_keyboards(k1) == k1
            &&& k1.filter(
                |k: KbdView| crate::keyboard::spec_dll_ok(s.system32_files, k),
            ) == k1
        }),
{
    let deduped = crate::keyboard::spec_dedup_keyboards(s.keyboards);
    let dllok = |k: KbdView| crate::keyboard::spec_dll_ok(s.system32_files, k);
    let k1 = deduped.filter(dllok);
    lemma_dedup_no_dup(s.keyboards);
    lemma_filter_no_dup(deduped, dllok);
    lemma_dedup_fixed(k1);
    assert forall|i: int| 0 <= i < k1.len() implies dllok(#[trigger] k1[i]) by {
        deduped.lemma_filter_pred(dllok, i);
    }
    lemma_filter_all(k1, dllok);
}

// ---------------------------------------------------------------------------
// Cleanup is idempotent: the merge of an input list
// ---------------------------------------------------------------------------

/// What a merge builds: the accumulator stays as a prefix, and everything
/// appended comes from the items, carries the merged locale, and never
/// repeats anything before it.
proof fn lemma_merge_shape(acc: Seq<InputListItem>, items: Seq<InputListItem>, l: u32)
    ensures
        ({
            let out = crate::keyboard_win8::spec_merge_lang(acc, items, l);
            &&& out.len() >= acc.len()
            &&& forall|k: int| 0 <= k < acc.len() ==> #[trigger] out[k] == acc[k]
            &&& forall|k: int|
                acc.len() <= k < out.len() ==> items.contains(#[trigger] out[k]) && out[k].lang_id
                    as u32 == l
            &&& forall|k1: int, k2: int|
                0 <= k1 < k2 < out.len() && k2 >= acc.len() ==> #[trigger] out[k1]
                    != #[trigger] out[k2]
        }),
    decreases items.len(),
{
    let out = crate::keyboard_win8::spec_merge_lang(acc, items, l);
    if items.len() > 0 {
        lemma_merge_shape(acc, items.drop_last(), l);
        let pre = crate::keyboard_win8::spec_merge_lang(acc, items.drop_last(), l);
        let it = items.last();
        if it.lang_id as u32 == l && !pre.contains(it) {
            assert forall|k: int|
                acc.len() <= k < out.len() implies items.contains(#[trigger] out[k]) && out[
                k
            ].lang_id as u32 == l by {
                if k < pre.len() {
                    assert(items.drop_last().contains(pre[k]));
                    let m = choose|m: int|
                        0 <= m < items.drop_last().len() && items.drop_last()[m] == pre[k];
                    assert(items[m] == pre[k]);
                } else {
                    assert(out[k] == it);
                    assert(items[items.len() - 1] == it);
                }
            }
            assert forall|k1: int, k2: int|
                0 <= k1 < k2 < out.len() && k2 >= acc.len() implies #[trigger] out[k1]
                != #[trigger] out[k2] by {
                if k2 == pre.len() {
                    if out[k1] == it {
                        assert(pre[k1] == it);
                        assert(pre.contains(it));
                    }
                }
            }
        }
    }
}

/// Merging a concatenation merges the parts in turn.
proof fn lemma_merge_concat(
    acc: Seq<InputListItem>,
    a: Seq<InputListItem>,
    b: Seq<InputListItem>,
    l: u32,
)
    ensures
        crate::keyboard_win8::spec_merge_lang(acc, a + b, l)
            == crate::keyboard_win8::spec_merge_lang(
            crate::keyboard_win8::spec_merge_lang(acc, a, l),
            b,
            l,
        ),
    decreases b.len(),
{
    if b.len() == 0 {
        assert(a + b =~= a);
    } else {
        assert((a + b).drop_last() =~= a + b.drop_last());
        assert((a + b).last() == b.last());
        lemma_merge_concat(acc, a, b.drop_last(), l);
    }
}

/// Items of another locale merge to nothing.
proof fn lemma_merge_foreign(acc: Seq<InputListItem>, b: Seq<InputListItem>, l: u32)
    requires
        forall|k: int| 0 <= k < b.len() ==> (#[trigger] b[k]).lang_id as u32 != l,
    ensures
        crate::keyboard_win8::spec_merge_lang(acc, b, l) == acc,
    decreases b.len(),
{
    if b.len() > 0 {
        assert(forall|k: int|
            0 <= k < b.len() - 1 ==> #[trigger] b.drop_last()[k] == b[k]);
        lemma_merge_foreign(acc, b.drop_last(), l);
        assert(b[b.len() - 1] == b.last());
    }
}

/// Items the accumulator already holds merge to nothing.
proof fn lemma_merge_absorbed(acc: Seq<InputListItem>, b: Seq<InputListItem>, l: u32)
    requires
        forall|k: int| 0 <= k < b.len() ==> acc.contains(#[trigger] b[k]),
    ensures
        crate::keyboard_win8::spec_merge_lang(acc, b, l) == acc,
    decreases b.len(),
{
    if b.len() > 0 {
        assert(forall|k: int|
            0 <= k < b.len() - 1 ==> #[trigger] b.drop_last()[k] == b[k]);
        lemma_merge_absorbed(acc, b.drop_last(), l);
        assert(acc.contains(b[b.len() - 1]));
    }
}

/// A distinct list of the right locale merges into nothing as itself.
proof fn lemma_merge_identity(b: Seq<InputListItem>, l: u32)
    requires
        forall|k: int| 0 <= k < b.len() ==> (#[trigger] b[k]).lang_id as u32 == l,
        forall|k1: int, k2: int| 0 <= k1 < k2 < b.len() ==> #[trigger] b[k1] != #[trigger] b[k2],
    ensures
        crate::keyboard_win8::spec_merge_lang(Seq::empty(), b, l) == b,
    decreases b.len(),
{
    if b.len() > 0 {
        let dl = b.drop_last();
        assert(forall|k: int| 0 <= k < dl.len() ==> #[trigger] dl[k] == b[k]);
        lemma_merge_identity(dl, l);
        assert(!dl.contains(b.last())) by {
            if dl.contains(b.last()) {
                let m = choose|m: int| 0 <= m < dl.len() && dl[m] == b.last();
                assert(b[m] == b[b.len() - 1]);
            }
        }
        assert(b[b.len() - 1] == b.last());
        assert(crate::keyboard_win8::spec_merge_lang(Seq::empty(), b, l) =~= b);
    }
}

/// Every collected item comes from some language's method list.
proof fn lemma_collect_from(langs: Seq<crate::state::ProfileView>, i: int)
    requires
        0 <= i < crate::keyboard_win8::spec_collect_items(langs).len(),
    ensures
        exists|w: int|
            0 <= w < langs.len() && (#[trigger] langs[w]).methods.contains(
                crate::keyboard_win8::spec_collect_items(langs)[i],
            ),
    decreases langs.len(),
{
    let out = crate::keyboard_win8::spec_collect_items(langs);
    if langs.len() > 0 {
        let dl = langs.drop_last();
        let pre = crate::keyboard_win8::spec_collect_items(dl);
        if i < pre.len() {
            lemma_collect_from(dl, i);
            let w = choose|w: int| 0 <= w < dl.len() && dl[w].methods.contains(pre[i]);
            assert(langs[w].methods.contains(out[i]));
        } else {
            assert(out[i] == langs.last().methods[i - pre.len()]);
            assert(langs[langs.len() - 1].methods.contains(out[i]));
        }
    }
}

/// Merging everything the languages collectively hold, for one locale,
/// yields exactly what that locale's languages hold, when every language
/// holds the canonical merge for its own locale.
proof fn lemma_merge_collect(
    langs: Seq<crate::state::ProfileView>,
    locales: Seq<crate::state::LocaleView>,
    source: Seq<InputListItem>,
    l: u32,
)
    requires
        forall|w: int|
            0 <= w < langs.len() ==> (crate::state::spec_lcid_lookup(
                locales,
                (#[trigger] langs[w]).tag,
            ) matches Some(lw) && langs[w].methods == crate::keyboard_win8::spec_merge_lang(
                Seq::empty(),
                source,
                lw,
            )),
    ensures
        (exists|w: int|
            0 <= w < langs.len() && crate::state::spec_lcid_lookup(
                locales,
                (#[trigger] langs[w]).tag,
            ) == Some(l)) ==> crate::keyboard_win8::spec_merge_lang(
            Seq::empty(),
            crate::keyboard_win8::spec_collect_items(langs),
            l,
        ) == crate::keyboard_win8::spec_merge_lang(Seq::empty(), source, l),
        !(exists|w: int|
            0 <= w < langs.len() && crate::state::spec_lcid_lookup(
                locales,
                (#[trigger] langs[w]).tag,
            ) == Some(l)) ==> crate::keyboard_win8::spec_merge_lang(
            Seq::empty(),
            crate::keyboard_win8::spec_collect_items(langs),
            l,
        ) == Seq::<InputListItem>::empty(),
    decreases langs.len(),
{
    let target = crate::keyboard_win8::spec_merge_lang(Seq::empty(), source, l);
    if langs.len() == 0 {
        assert(crate::keyboard_win8::spec_collect_items(langs) =~= Seq::<InputListItem>::empty());
    } else {
        let dl = langs.drop_last();
        assert(forall|w: int| 0 <= w < dl.len() ==> #[trigger] dl[w] == langs[w]);
        lemma_merge_collect(dl, locales, source, l);
        let inner = crate::keyboard_win8::spec_merge_lang(
            Seq::empty(),
            crate::keyboard_win8::spec_collect_items(dl),
            l,
        );
        let last = langs.last();
        let ll = crate::state::spec_lcid_lookup(locales, last.tag)->0;
        assert(langs[langs.len() - 1] == last);
        assert(last.methods == crate::keyboard_win8::spec_merge_lang(Seq::empty(), source, ll));
        lemma_merge_concat(
            Seq::empty(),
            crate::keyboard_win8::spec_collect_items(dl),
            last.methods,
            l,
        );
        lemma_merge_shape(Seq::empty(), source, ll);
        if ll == l {
            if exists|w: int|
                0 <= w < dl.len() && crate::state::spec_lcid_lookup(
                    locales,
                    (#[trigger] dl[w]).tag,
                ) == Some(l) {
                assert(inner == target);
                lemma_merge_absorbed(inner, last.methods, l);
            } else {
                assert(inner =~= Seq::<InputListItem>::empty());
                lemma_merge_identity(last.methods, l);
            }
        } else {
            assert(forall|k: int|
                0 <= k < last.methods.len() ==> (#[trigger] last.methods[k]).lang_id as u32 != l);
            lemma_merge_foreign(inner, last.methods, l);
            assert forall|w: int|
                0 <= w < langs.len() && crate::state::spec_lcid_lookup(
                    locales,
                    (#[trigger] langs[w]).tag,
                ) == Some(l) implies 0 <= w < dl.len() && crate::state::spec_lcid_lookup(
                locales,
                dl[w].tag,
            ) == Some(l) by {
                assert(w != langs.len() - 1);
            }
        }
    }
}

// ---------------------------------------------------------------------------
// Cleanup is idempotent
// ---------------------------------------------------------------------------

/// Everything one cleanup pass leaves behind in the language layer: every
/// surviving profile has a locale, a features value, at least one input
/// method, and holds exactly the canonical merge of the surviving references
/// for its locale.
proof fn lemma_clean_language_shape(s: StateView)
    ensures
        ({
            let c = crate::win8::spec_clean(s);
            let sd = crate::keyboard::spec_remove_invalid_dlls(
                crate::keyboard::spec_remove_duplicate_guids(s),
            );
            let f = crate::keyboard_win8::spec_filtered_kbids(sd);
            forall|w: int|
                0 <= w < c.languages.len() ==> {
                    let p = #[trigger] c.languages[w];
                    &&& crate::state::spec_lcid_lookup(s.locales, p.tag) is Some
                    &&& p.methods == crate::keyboard_win8::spec_merge_lang(
                        Seq::empty(),
                        f,
                        crate::state::spec_lcid_lookup(s.locales, p.tag)->0,
                    )
                    &&& p.methods.len() > 0
                    &&& p.features_to_install is Some
                    &&& p == crate::win8::spec_with_features(
                        crate::win8::spec_profile_for(
                            crate::keyboard_win8::spec_remove_invalid_kbids(sd).languages,
                            p.tag,
                        ),
                    )
                }
        }),
{
    broadcast use vstd::prelude::Seq::lemma_filter_len;

    let c = crate::win8::spec_clean(s);
    let sd = crate::keyboard::spec_remove_invalid_dlls(
        crate::keyboard::spec_remove_duplicate_guids(s),
    );
    let f = crate::keyboard_win8::spec_filtered_kbids(sd);
    let skb = crate::keyboard_win8::spec_remove_invalid_kbids(sd);
    let lkb = skb.languages;
    assert(sd.locales == s.locales);
    assert(skb.locales == s.locales);

    // Each post-prune profile holds the canonical merge for its locale, or
    // nothing when its tag has none.
    assert forall|u: int| 0 <= u < lkb.len() implies #[trigger] lkb[u]
        == (match crate::state::spec_lcid_lookup(s.locales, sd.languages[u].tag) {
        Some(l) => crate::state::ProfileView {
            methods: crate::keyboard_win8::spec_merge_lang(Seq::empty(), f, l),
            ..crate::state::ProfileView { methods: Seq::empty(), ..sd.languages[u] }
        },
        None => crate::state::ProfileView { methods: Seq::empty(), ..sd.languages[u] },
    }) by {
        assert(lkb[u] == crate::keyboard_win8::spec_apply_items(
            s.locales,
            crate::state::ProfileView { methods: Seq::empty(), ..sd.languages[u] },
            f,
        ));
    }

    let nonempty = |p: crate::state::ProfileView| p.methods.len() != 0;
    let tags = crate::win8::spec_tags_of(lkb.filter(nonempty));
    lemma_committed_profiles(skb, tags);

    assert forall|w: int| 0 <= w < c.languages.len() implies {
        let p = #[trigger] c.languages[w];
        &&& crate::state::spec_lcid_lookup(s.locales, p.tag) is Some
        &&& p.methods == crate::keyboard_win8::spec_merge_lang(
            Seq::empty(),
            f,
            crate::state::spec_lcid_lookup(s.locales, p.tag)->0,
        )
        &&& p.methods.len() > 0
        &&& p.features_to_install is Some
        &&& p == crate::win8::spec_with_features(crate::win8::spec_profile_for(lkb, p.tag))
    } by {
        let p = c.languages[w];
        let t = p.tag;
        assert(p == crate::win8::spec_with_features(crate::win8::spec_profile_for(lkb, t)));
        // The committed tag names some pruned profile with methods left.
        let keepl = |tt: Seq<char>| crate::state::spec_has_locale(s.locales, tt);
        let kept = tags.filter(keepl);
        assert(c.languages == kept.map_values(
            |tt: Seq<char>| crate::win8::spec_with_features(
                crate::win8::spec_profile_for(lkb, tt),
            ),
        ));
        assert(p == crate::win8::spec_with_features(
            crate::win8::spec_profile_for(lkb, kept[w]),
        ));
        lemma_first_match(lkb, |q: crate::state::ProfileView| q.tag == kept[w]);
        assert(crate::win8::spec_profile_for(lkb, kept[w]).tag == kept[w]);
        assert(kept[w] == t);
        lemma_filter_from(tags, keepl, w);
        let v = choose|v: int| 0 <= v < tags.len() && tags[v] == kept[w];
        assert(tags[v] == lkb.filter(nonempty)[v].tag);
        lemma_filter_from(lkb, nonempty, v);
        let u = choose|u: int| 0 <= u < lkb.len() && lkb[u] == lkb.filter(nonempty)[v];
        lkb.lemma_filter_pred(nonempty, v);
        assert(lkb[u].tag == t && lkb[u].methods.len() > 0);
        // A nonempty pruned profile implies its tag has a locale.
        assert(crate::state::spec_lcid_lookup(s.locales, t) is Some);
        let l = crate::state::spec_lcid_lookup(s.locales, t)->0;
        assert(lkb[u].methods == crate::keyboard_win8::spec_merge_lang(Seq::empty(), f, l));
        // The first profile with this tag holds the same methods: the merge
        // depends only on the tag's locale.
        let j = crate::state::spec_language_idx(lkb, t);
        lemma_first_match(lkb, |q: crate::state::ProfileView| q.tag == t);
        assert(j >= 0);
        assert(lkb[j].tag == t);
        assert(lkb[j].methods == crate::keyboard_win8::spec_merge_lang(Seq::empty(), f, l));
        assert(p.methods == lkb[j].methods);
    }
}

/// Running the cleanup twice in succession produces no further change: the
/// second run is the identity on what the first one left behind.
pub proof fn lemma_clean_idempotent(s: StateView)
    ensures
        crate::win8::spec_clean(crate::win8::spec_clean(s)) == crate::win8::spec_clean(s),
{
    broadcast use vstd::prelude::Seq::lemma_filter_len;

    let c = crate::win8::spec_clean(s);
    let sd = crate::keyboard::spec_remove_invalid_dlls(
        crate::keyboard::spec_remove_duplicate_guids(s),
    );
    let f = crate::keyboard_win8::spec_filtered_kbids(sd);
    let skb = crate::keyboard_win8::spec_remove_invalid_kbids(sd);
    let lkb = skb.languages;
    let l1 = c.languages;
    let k1 = sd.keyboards;
    lemma_clean_language_shape(s);

    assert(c.keyboards == k1);
    assert(c.locales == s.locales);
    assert(c.system32_files == s.system32_files);

    // The keyboard layer is already at its fixed point.
    lemma_keyboard_cleanup_idempotent(s);
    let cd = crate::keyboard::spec_remove_invalid_dlls(
        crate::keyboard::spec_remove_duplicate_guids(c),
    );
    assert(cd =~= c);

    // Every reference the surviving languages hold already survived the
    // prune, so the second filtration keeps them all.
    let keepk = |it: InputListItem| crate::keyboard_win8::spec_keep_kbid(cd.keyboards, it);
    let collected = crate::keyboard_win8::spec_collect_items(cd.languages);
    assert(cd.languages == l1);
    assert(cd.keyboards == k1);
    assert forall|i: int| 0 <= i < collected.len() implies keepk(#[trigger] collected[i]) by {
        lemma_collect_from(l1, i);
        let w = choose|w: int| 0 <= w < l1.len() && l1[w].methods.contains(collected[i]);
        let l = crate::state::spec_lcid_lookup(s.locales, l1[w].tag)->0;
        lemma_merge_shape(Seq::empty(), f, l);
        let m = choose|m: int| 0 <= m < l1[w].methods.len() && l1[w].methods[m] == collected[i];
        assert(f.contains(collected[i]));
        let fidx = choose|fi: int| 0 <= fi < f.len() && f[fi] == collected[i];
        crate::keyboard_win8::spec_collect_items(sd.languages).lemma_filter_pred(
            |it: InputListItem| crate::keyboard_win8::spec_keep_kbid(sd.keyboards, it),
            fidx,
        );
        assert(crate::keyboard_win8::spec_keep_kbid(sd.keyboards, collected[i]));
    }
    let f2 = crate::keyboard_win8::spec_filtered_kbids(cd);
    assert(f2 == collected) by {
        lemma_filter_all(collected, keepk);
    }

    // Re-clearing and re-installing what the languages already hold leaves
    // each profile exactly as it was.
    let skb2 = crate::keyboard_win8::spec_remove_invalid_kbids(cd);
    assert(skb2.languages =~= l1) by {
        assert forall|w: int| 0 <= w < l1.len() implies #[trigger] skb2.languages[w] == l1[w] by {
            let p = l1[w];
            let cleared = crate::state::ProfileView { methods: Seq::empty(), ..p };
            assert(skb2.languages[w] == crate::keyboard_win8::spec_apply_items(
                cd.locales,
                cleared,
                f2,
            ));
            let l = crate::state::spec_lcid_lookup(s.locales, p.tag)->0;
            assert(crate::state::spec_lcid_lookup(s.locales, p.tag) == Some(l));
            lemma_merge_collect(l1, s.locales, f, l);
            assert(crate::keyboard_win8::spec_merge_lang(Seq::empty(), collected, l)
                == crate::keyboard_win8::spec_merge_lang(Seq::empty(), f, l));
            assert(skb2.languages[w] =~= p);
        }
    }
    assert(skb2 =~= c);

    // Nothing is empty any more, every tag still has its locale, and each
    // profile is the first of its tag, so the final commit reproduces the
    // list unchanged.
    let nonempty = |p: crate::state::ProfileView| p.methods.len() != 0;
    assert(skb2.languages.filter(nonempty) == l1) by {
        lemma_filter_all(l1, nonempty);
    }
    let tags2 = crate::win8::spec_tags_of(l1);
    let c2 = crate::win8::spec_clean(c);
    assert(c2 == crate::win8::spec_set_user_languages(skb2, tags2));
    let keepl2 = |tt: Seq<char>| crate::state::spec_has_locale(skb2.locales, tt);
    assert(tags2.filter(keepl2) == tags2) by {
        assert forall|w: int| 0 <= w < tags2.len() implies keepl2(#[trigger] tags2[w]) by {
            assert(tags2[w] == l1[w].tag);
            assert(crate::state::spec_lcid_lookup(s.locales, l1[w].tag) is Some);
        }
        lemma_filter_all(tags2, keepl2);
    }
    assert(c2.languages =~= l1) by {
        assert forall|w: int| 0 <= w < l1.len() implies #[trigger] c2.languages[w] == l1[w] by {
            let t = l1[w].tag;
            assert(c2.languages[w] == crate::win8::spec_with_features(
                crate::win8::spec_profile_for(skb2.languages, tags2.filter(keepl2)[w]),
            ));
            assert(tags2.filter(keepl2)[w] == t);
            let j = crate::state::spec_language_idx(l1, t);
            lemma_first_match(l1, |q: crate::state::ProfileView| q.tag == t);
            assert(j >= 0 && l1[j].tag == t);
            // Profiles committed for the same tag are the same profile.
            assert(l1[j] == crate::win8::spec_with_features(
                crate::win8::spec_profile_for(lkb, t),
            ));
            assert(l1[w] == crate::win8::spec_with_features(
                crate::win8::spec_profile_for(lkb, t),
            ));
            assert(crate::win8::spec_profile_for(skb2.languages, t) == l1[j]);
            assert(crate::win8::spec_with_features(l1[j]) == l1[j]);
        }
    }
    assert(c2 =~= c);
}

// ---------------------------------------------------------------------------
// Regeneration preserves valid substitutes
// ---------------------------------------------------------------------------

/// When the first substitute matching a sorted item exists, regeneration
/// writes that substitute identifier, not the raw keyboard identifier, into
/// the item's Preload slot, and the substitute itself survives the
/// garbage collection.
pub proof fn lemma_regeneration_preserves_substitutes(s: StateView, i: int, j: int)
    requires
        0 <= i < crate::keyboard_win8::spec_sorted_keyboard_ids(s.languages).len(),
        0 <= j < s.substitutes.len(),
        ({
            let it = crate::keyboard_win8::spec_sorted_keyboard_ids(s.languages)[i];
            &&& s.substitutes[j].target == it.tip_id
            &&& id_low16(s.substitutes[j].id) == it.lang_id as u32
            &&& forall|m: int|
                0 <= m < j ==> !((#[trigger] s.substitutes[m]).target == it.tip_id && id_low16(
                    s.substitutes[m].id,
                ) == it.lang_id as u32)
        }),
    ensures
        crate::keyboard_win8::spec_regenerate(s).preload[i].value == s.substitutes[j].id,
        crate::keyboard_win8::spec_regenerate(s).preload[i].index == (i + 1) as usize,
        crate::keyboard_win8::spec_regenerate(s).substitutes.contains(s.substitutes[j]),
{
    let items = crate::keyboard_win8::spec_sorted_keyboard_ids(s.languages);
    let it = items[i];
    let subp = |sub: SubstituteEntry| sub.target == it.tip_id && id_low16(sub.id)
        == it.lang_id as u32;
    crate::state::lemma_first_match_at(s.substitutes, subp, j);
    assert(crate::keyboard_win8::spec_preload_value(s.substitutes, it) == s.substitutes[j].id);

    // The substitute's target is referenced, so the collection keeps it.
    let keepp = |sub: SubstituteEntry| crate::keyboard_win8::spec_target_present(
        items,
        sub.target,
    );
    assert(keepp(s.substitutes[j])) by {
        assert(items[i].tip_id == s.substitutes[j].target);
    }
    s.substitutes.lemma_filter_contains(keepp, j);
}

} // verus!
