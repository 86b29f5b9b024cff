//! The legacy enable path and the legacy substitute and preload identifier
//! allocators.

use vstd::prelude::*;

use crate::state::{
    id_high16, id_low16, make_id, spec_make_id, PreloadEntry, StateView, SubstituteEntry,
    SystemState,
};
use crate::types::{InputList, InputListItem};

verus! {

/// What enabling a keyboard does here: one reference, locale paired with the
/// record's key, pushed straight through the install primitive.
pub open spec fn spec_enable(s: StateView, tag: Seq<char>, product_code: Seq<char>) -> StateView {
    let i = crate::keyboard::spec_find_by_code(s.keyboards, product_code);
    let tip = InputListItem {
        lang_id: (crate::spec_lcid(s.locales, tag) as u16),
        tip_id: s.keyboards[i].key_id,
    };
    crate::keyboard_win8::spec_install_layout(s, seq![tip])
}

/// Enables a keyboard for a language the legacy way: the single reference is
/// installed directly, with no registry regeneration around it. Fails with
/// `NotFound`, changing nothing, when no record carries the product code.
pub fn enable(state: &mut SystemState, tag: &str, product_code: &str) -> (r: Result<
    (),
    crate::keyboard::Error,
>)
    requires
        crate::spec_lcid(old(state)@.locales, tag@) <= 0xffff,
    ensures
        spec_has(old(state)@, product_code@) ==> r == Ok::<(), crate::keyboard::Error>(())
            && final(state)@ == spec_enable(old(state)@, tag@, product_code@),
        !spec_has(old(state)@, product_code@) ==> r == Err::<(), crate::keyboard::Error>(
            crate::keyboard::Error::NotFound,
        ) && final(state)@ == old(state)@,
{
    let record = match crate::state::KeyboardRegKey::find_by_product_code(state, product_code) {
        Some(v) => v,
        None => {
            return Err(crate::keyboard::Error::NotFound);
        },
    };

    let lcid: u32 = crate::lcid(state, tag);
    let mut tip_text = crate::types::hex_string(lcid, 4, true);
    proof {
        reveal_strlit(":");
    }
    tip_text.append(":");
    let key_text = record.regkey_id();
    tip_text.append(key_text.as_str());
    let ghost gtip = InputListItem { lang_id: lcid as u16, tip_id: record.key_id };
    proof {
        crate::types::lemma_pow16_values();
        crate::types::lemma_hex_roundtrip(lcid as nat, 4, true);
        crate::types::lemma_hex_roundtrip(record.key_id as nat, 8, false);
        assert(":"@ =~= seq![':']);
        let t = tip_text@;
        assert(t.subrange(0, 4) =~= crate::types::spec_hex(lcid as nat, 4, true));
        assert(t.subrange(5, 13) =~= crate::types::spec_hex(record.key_id as nat, 8, false));
        assert(t[4] == ':');
        assert(crate::types::spec_parse_item(tip_text@) == Some(gtip));
    }
    let mut texts: Vec<String> = Vec::new();
    texts.push(tip_text);
    let tip = match InputList::parse_all(&texts) {
        Some(l) => l,
        None => {
            proof {
                assert(false);
            }
            return Err(crate::keyboard::Error::NotFound);
        },
    };
    proof {
        assert(tip@ =~= seq![gtip]);
    }
    crate::keyboard_win8::install_layout(state, tip, 0);
    Ok(())
}

/// Whether some record carries the product code.
pub open spec fn spec_has(s: StateView, product_code: Seq<char>) -> bool {
    crate::keyboard::spec_has_code(s.keyboards, product_code)
}

/// The sequence-number half the next substitute identifier for this locale
/// suffix receives: substitute identifiers begin at zero, then jump to the
/// reserved range and count up from there.
pub open spec fn spec_next_substitute_prefix(subs: Seq<SubstituteEntry>, suffix: u16) -> int
    decreases subs.len(),
{
    if subs.len() == 0 {
        0
    } else {
        let acc = spec_next_substitute_prefix(subs.drop_last(), suffix);
        let sub = subs.last();
        if id_low16(sub.id) == suffix as u32 && id_high16(sub.id) >= acc {
            if id_high16(sub.id) == 0 {
                0xd001
            } else {
                id_high16(sub.id) + 1
            }
        } else {
            acc
        }
    }
}

pub proof fn lemma_next_substitute_prefix_bounds(subs: Seq<SubstituteEntry>, suffix: u16)
    ensures
        0 <= spec_next_substitute_prefix(subs, suffix) <= 0x10000,
    decreases subs.len(),
{
    if subs.len() > 0 {
        lemma_next_substitute_prefix_bounds(subs.drop_last(), suffix);
    }
}

/// The next free substitute identifier for a locale suffix: the highest
/// existing sequence number for that suffix stepped once, over the current
/// user's Substitutes table.
pub fn next_substitute_id(state: &SystemState, suffix: u16) -> (r: u32)
    requires
        spec_next_substitute_prefix(state@.substitutes, suffix) < 0x10000,
    ensures
        r == spec_make_id(
            spec_next_substitute_prefix(state@.substitutes, suffix) as u32,
            suffix as u32,
        ),
{
    let ghost subs = state@.substitutes;
    let mut acc: u32 = 0;
    let mut i: usize = 0;
    proof {
        assert(subs.take(0) =~= Seq::<SubstituteEntry>::empty());
    }
    while i < state.substitutes.len()
        invariant
            0 <= i <= state.substitutes@.len(),
            subs == state@.substitutes,
            subs.len() == state.substitutes@.len(),
            forall|j: int| 0 <= j < subs.len() ==> subs[j] == #[trigger] state.substitutes@[j],
            acc == spec_next_substitute_prefix(subs.take(i as int), suffix),
            acc <= 0x10000,
        decreases state.substitutes@.len() - i,
    {
        proof {
            assert(subs.take(i + 1).drop_last() =~= subs.take(i as int));
            assert(subs.take(i + 1).last() == subs[i as int]);
        }
        let sub = state.substitutes[i];
        if sub.id % 0x10000 == suffix as u32 {
            let v = sub.id / 0x10000;
            if v >= acc {
                acc = if v == 0 {
                    0xd001
                } else {
                    v + 1
                };
            }
        }
        i = i + 1;
    }
    proof {
        assert(subs.take(subs.len() as int) =~= subs);
    }
    make_id(acc, suffix as u32)
}

/// The next free Preload index on the chosen hive: one past the highest
/// index in use, starting from one.
pub open spec fn spec_next_preload_index(entries: Seq<PreloadEntry>) -> int
    decreases entries.len(),
{
    if entries.len() == 0 {
        1
    } else {
        let acc = spec_next_preload_index(entries.drop_last());
        if entries.last().index >= acc {
            entries.last().index + 1
        } else {
            acc
        }
    }
}

/// Computes the next free Preload index, on the default-user hive or on the
/// current user's.
pub fn next_preload_id(state: &SystemState, is_all_users: bool) -> (r: usize)
    requires
        is_all_users ==> spec_next_preload_index(state@.default_user.preload)
            <= usize::MAX,
        !is_all_users ==> spec_next_preload_index(state@.preload) <= usize::MAX,
    ensures
        is_all_users ==> r == spec_next_preload_index(state@.default_user.preload),
        !is_all_users ==> r == spec_next_preload_index(state@.preload),
{
    let entries: &Vec<PreloadEntry> = if is_all_users {
        &state.default_user.preload
    } else {
        &state.preload
    };
    let ghost ps = entries@;
    let mut acc: usize = 1;
    let mut i: usize = 0;
    proof {
        assert(ps.take(0) =~= Seq::<PreloadEntry>::empty());
        if is_all_users {
            assert(ps == state@.default_user.preload);
        } else {
            assert(ps == state@.preload);
        }
    }
    while i < entries.len()
        invariant
            0 <= i <= entries@.len(),
            ps == entries@,
            spec_next_preload_index(ps) <= usize::MAX,
            acc == spec_next_preload_index(ps.take(i as int)),
            spec_next_preload_index(ps.take(i as int)) <= spec_next_preload_index(ps),
        decreases entries@.len() - i,
    {
        proof {
            assert(ps.take(i + 1).drop_last() =~= ps.take(i as int));
            assert(ps.take(i + 1).last() == ps[i as int]);
            lemma_next_preload_prefix(ps, i + 1);
        }
        let e = entries[i];
        if e.index >= acc {
            acc = e.index + 1;
        }
        i = i + 1;
    }
    proof {
        assert(ps.take(ps.len() as int) =~= ps);
    }
    acc
}

/// The next index over a prefix never exceeds the next index over the whole
/// table.
proof fn lemma_next_preload_prefix(ps: Seq<PreloadEntry>, n: int)
    requires
        0 <= n <= ps.len(),
    ensures
        spec_next_preload_index(ps.take(n)) <= spec_next_preload_index(ps),
    decreases ps.len() - n,
{
    if n == ps.len() {
        assert(ps.take(n) =~= ps);
    } else {
        lemma_next_preload_prefix(ps, n + 1);
        assert(ps.take(n + 1).drop_last() =~= ps.take(n));
        assert(ps.take(n + 1).last() == ps[n]);
        lemma_next_preload_monotone(ps.take(n), ps[n]);
    }
}

proof fn lemma_next_preload_monotone(ps: Seq<PreloadEntry>, e: PreloadEntry)
    ensures
        spec_next_preload_index(ps) <= spec_next_preload_index(ps.push(e)),
{
    assert(ps.push(e).drop_last() =~= ps);
    assert(ps.push(e).last() == e);
}

} // verus!
