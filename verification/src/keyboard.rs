//! The keyboard registry store: CRUD over installed keyboard-layout records
//! and the identifier allocators that keep new records collision-free.

use vstd::prelude::*;

use crate::state::{
    first_match, id_high16, id_low16, is_custom_id, kbd_views, lemma_first_match,
    lemma_first_match_at, make_id, spec_lcid_lookup, spec_locale_idx, spec_make_id,
    spec_has_locale, KbdView, StateView, SystemState,
};
pub use crate::state::KeyboardRegKey;

verus! {

/// How a store operation can fail. Registry access itself cannot fail in the
/// model; an adapter that talks to the live registry surfaces its own errors
/// before the state ever reaches this library.
#[derive(PartialEq, Eq, Structural, Clone, Copy, Debug)]
pub enum Error {
    AlreadyExists,
    NotFound,
}

// ---------------------------------------------------------------------------
// Lookups
// ---------------------------------------------------------------------------

/// Index of the first record whose product code is `code`, or -1.
pub open spec fn spec_find_by_code(kbds: Seq<KbdView>, code: Seq<char>) -> int {
    first_match(kbds, |k: KbdView| k.product_code == Some(code))
}

pub open spec fn spec_has_code(kbds: Seq<KbdView>, code: Seq<char>) -> bool {
    spec_find_by_code(kbds, code) >= 0
}

/// The custom records, in store order: the ones whose key name carries the
/// reserved first digit.
pub open spec fn spec_installed(kbds: Seq<KbdView>) -> Seq<KbdView> {
    kbds.filter(|k: KbdView| is_custom_id(k.key_id))
}

impl KeyboardRegKey {
    /// Linear scan for the first record carrying this product code.
    pub fn find_by_product_code(state: &SystemState, product_code: &str) -> (r: Option<
        KeyboardRegKey,
    >)
        ensures
            ({
                let i = spec_find_by_code(state@.keyboards, product_code@);
                if i >= 0 {
                    r matches Some(k) && k@ == state@.keyboards[i]
                } else {
                    r is None
                }
            }),
            r is Some <==> spec_has_code(state@.keyboards, product_code@),
    {
        let code: String = product_code.to_owned();
        let ghost kbds = state@.keyboards;
        let ghost p = |k: KbdView| k.product_code == Some(product_code@);
        let mut i: usize = 0;
        while i < state.keyboards.len()
            invariant
                0 <= i <= state.keyboards@.len(),
                code@ == product_code@,
                kbds == state@.keyboards,
                p == (|k: KbdView| k.product_code == Some(product_code@)),
                kbds.len() == state.keyboards@.len(),
                forall|j: int| 0 <= j < kbds.len() ==> kbds[j] == #[trigger] state.keyboards@[j]@,
                forall|j: int| 0 <= j < i ==> !p(#[trigger] kbds[j]),
            decreases state.keyboards@.len() - i,
        {
            let hit = match state.keyboards[i].product_code.as_ref() {
                Some(s) => *s == code,
                None => false,
            };
            if hit {
                proof {
                    lemma_first_match_at(kbds, p, i as int);
                }
                return Some(state.keyboards[i].duplicate());
            }
            i = i + 1;
        }
        proof {
            lemma_first_match(kbds, p);
        }
        None
    }

    /// All custom records, in store order.
    pub fn installed(state: &SystemState) -> (r: Vec<KeyboardRegKey>)
        ensures
            kbd_views(r@) == spec_installed(state@.keyboards),
    {
        let ghost kbds = state@.keyboards;
        let ghost p = |k: KbdView| is_custom_id(k.key_id);
        let mut out: Vec<KeyboardRegKey> = Vec::new();
        let mut i: usize = 0;
        proof {
            reveal(Seq::filter);
            assert(kbd_views(out@) =~= kbds.take(0).filter(p));
        }
        while i < state.keyboards.len()
            invariant
                0 <= i <= state.keyboards@.len(),
                kbds == state@.keyboards,
                p == (|k: KbdView| is_custom_id(k.key_id)),
                kbds.len() == state.keyboards@.len(),
                forall|j: int| 0 <= j < kbds.len() ==> kbds[j] == #[trigger] state.keyboards@[j]@,
                kbd_views(out@) == kbds.take(i as int).filter(p),
            decreases state.keyboards@.len() - i,
        {
            let id = state.keyboards[i].key_id;
            proof {
                reveal(Seq::filter);
                assert(kbds.take(i + 1).drop_last() =~= kbds.take(i as int));
                assert(kbds.take(i + 1).last() == kbds[i as int]);
            }
            if 0xa0000000 <= id && id < 0xb0000000 {
                out.push(state.keyboards[i].duplicate());
                proof {
                    assert(kbd_views(out@) =~= kbds.take(i + 1).filter(p));
                }
            } else {
                proof {
                    assert(kbd_views(out@) =~= kbds.take(i + 1).filter(p));
                }
            }
            i = i + 1;
        }
        proof {
            assert(kbds.take(kbds.len() as int) =~= kbds);
        }
        out
    }

    /// The registry key name of this record: eight lowercase hex digits.
    pub fn regkey_id(&self) -> (r: String)
        ensures
            r@ == crate::types::spec_hex(self.key_id as nat, 8, false),
    {
        crate::types::hex_string(self.key_id, 8, false)
    }

    /// The stored layout id, rendered as it is stored: at least four
    /// lowercase hex digits.
    pub fn id(&self) -> (r: Option<String>)
        ensures
            match self@.layout_id {
                Some(v) => r matches Some(s) && s@ == crate::types::spec_hex(v as nat, 4, false),
                None => r is None,
            },
    {
        match self.layout_id {
            Some(v) => Some(crate::types::hex_string(v, 4, false)),
            None => None,
        }
    }

    pub fn product_code(&self) -> (r: Option<&String>)
        ensures
            match r {
                Some(s) => self@.product_code == Some(s@),
                None => self@.product_code is None,
            },
    {
        self.product_code.as_ref()
    }

    pub fn language_name(&self) -> (r: Option<&String>)
        ensures
            match r {
                Some(s) => self@.language_name == Some(s@),
                None => self@.language_name is None,
            },
    {
        self.language_name.as_ref()
    }

    pub fn layout_file(&self) -> (r: Option<&String>)
        ensures
            match r {
                Some(s) => self@.layout_file == Some(s@),
                None => self@.layout_file is None,
            },
    {
        self.layout_file.as_ref()
    }

    pub fn layout_name(&self) -> (r: Option<&String>)
        ensures
            match r {
                Some(s) => self@.layout_text == Some(s@),
                None => self@.layout_text is None,
            },
    {
        self.layout_text.as_ref()
    }
}

/// All custom records, in store order.
pub fn installed(state: &SystemState) -> (r: Vec<KeyboardRegKey>)
    ensures
        kbd_views(r@) == spec_installed(state@.keyboards),
{
    KeyboardRegKey::installed(state)
}

/// A value's text, or nothing where the registry holds no value.
pub open spec fn spec_or_empty(o: Option<Seq<char>>) -> Seq<char> {
    match o {
        Some(s) => s,
        None => Seq::empty(),
    }
}

/// The text a record is printed as: one line per value, in the order the
/// listing shows them.
pub open spec fn spec_record_description(k: KbdView) -> Seq<char> {
    "Registry Key:   "@ + crate::types::spec_hex(k.key_id as nat, 8, false)
        + "\nLayout Name:    "@ + spec_or_empty(k.layout_text) + "\nLanguage Name:  "@
        + spec_or_empty(k.language_name) + "\nLayout File:    "@ + spec_or_empty(k.layout_file)
        + "\nLayout Id:      "@ + (match k.layout_id {
        Some(v) => crate::types::spec_hex(v as nat, 4, false),
        None => Seq::empty(),
    }) + "\nProduct Code:   "@ + spec_or_empty(k.product_code) + "\n"@
}

impl KeyboardRegKey {
    /// Renders the record, one line per stored value, absent values shown
    /// empty.
    pub fn description(&self) -> (r: String)
        ensures
            r@ == spec_record_description(self@),
    {
        let mut s: String = "Registry Key:   ".to_owned();
        let key = self.regkey_id();
        s.append(key.as_str());
        s.append("\nLayout Name:    ");
        if let Some(v) = self.layout_name() {
            s.append(v.as_str());
        }
        s.append("\nLanguage Name:  ");
        if let Some(v) = self.language_name() {
            s.append(v.as_str());
        }
        s.append("\nLayout File:    ");
        if let Some(v) = self.layout_file() {
            s.append(v.as_str());
        }
        s.append("\nLayout Id:      ");
        if let Some(v) = self.id() {
            s.append(v.as_str());
        }
        s.append("\nProduct Code:   ");
        if let Some(v) = self.product_code() {
            s.append(v.as_str());
        }
        s.append("\n");
        proof {
            assert(Seq::<char>::empty() =~= spec_or_empty(None));
            assert(s@ =~= spec_record_description(self@));
        }
        s
    }
}

// ---------------------------------------------------------------------------
// Identifier allocation
// ---------------------------------------------------------------------------

/// Highest sequence number among custom records whose key name ends in
/// `lcid`, or -1 when there is none.
pub open spec fn spec_max_custom_seq(kbds: Seq<KbdView>, lcid: u32) -> int
    decreases kbds.len(),
{
    if kbds.len() == 0 {
        -1
    } else {
        let rest = spec_max_custom_seq(kbds.drop_last(), lcid);
        let k = kbds.last();
        if is_custom_id(k.key_id) && id_low16(k.key_id) == lcid {
            if id_high16(k.key_id) as int > rest {
                id_high16(k.key_id) as int
            } else {
                rest
            }
        } else {
            rest
        }
    }
}

/// The key identifier the next record for this locale receives: the next
/// sequence number over the locale's existing records, or the start of the
/// reserved range when it has none.
pub open spec fn spec_next_regkey_id(kbds: Seq<KbdView>, lcid: u32) -> u32 {
    let m = spec_max_custom_seq(kbds, lcid);
    if m < 0 {
        spec_make_id(0xa000, lcid)
    } else {
        spec_make_id((m + 1) as u32, lcid)
    }
}

pub proof fn lemma_max_custom_seq_bounds(kbds: Seq<KbdView>, lcid: u32)
    ensures
        spec_max_custom_seq(kbds, lcid) >= -1,
        spec_max_custom_seq(kbds, lcid) < 0x10000,
        spec_max_custom_seq(kbds, lcid) >= 0 ==> spec_max_custom_seq(kbds, lcid) >= 0xa000,
    decreases kbds.len(),
{
    if kbds.len() > 0 {
        lemma_max_custom_seq_bounds(kbds.drop_last(), lcid);
        let k = kbds.last();
        if is_custom_id(k.key_id) {
            assert(0xa000 <= id_high16(k.key_id) < 0xb000) by (nonlinear_arith)
                requires 0xa0000000 <= k.key_id < 0xb0000000;
        }
    }
}

/// Every custom record for this locale has a sequence number at most the
/// maximum.
pub proof fn lemma_max_custom_seq_ge(kbds: Seq<KbdView>, lcid: u32, i: int)
    requires
        0 <= i < kbds.len(),
        is_custom_id(kbds[i].key_id),
        id_low16(kbds[i].key_id) == lcid,
    ensures
        spec_max_custom_seq(kbds, lcid) >= id_high16(kbds[i].key_id),
    decreases kbds.len(),
{
    if i == kbds.len() - 1 {
        lemma_max_custom_seq_bounds(kbds.drop_last(), lcid);
    } else {
        lemma_max_custom_seq_ge(kbds.drop_last(), lcid, i);
    }
}

/// Enumerates the keyboard-layouts tree and returns the first free key
/// identifier for `lcid`.
pub fn first_available_keyboard_regkey_id(state: &SystemState, lcid: u32) -> (r: u32)
    requires
        lcid < 0x10000,
        spec_max_custom_seq(state@.keyboards, lcid) < 0xffff,
    ensures
        r == spec_next_regkey_id(state@.keyboards, lcid),
        id_low16(r) == lcid,
{
    let ghost kbds = state@.keyboards;
    let mut max: i64 = -1;
    let mut i: usize = 0;
    proof {
        assert(kbds.take(0) =~= Seq::<KbdView>::empty());
    }
    while i < state.keyboards.len()
        invariant
            0 <= i <= state.keyboards@.len(),
            kbds == state@.keyboards,
            kbds.len() == state.keyboards@.len(),
            forall|j: int| 0 <= j < kbds.len() ==> kbds[j] == #[trigger] state.keyboards@[j]@,
            max == spec_max_custom_seq(kbds.take(i as int), lcid),
            -1 <= max < 0x10000,
        decreases state.keyboards@.len() - i,
    {
        let id = state.keyboards[i].key_id;
        proof {
            assert(kbds.take(i + 1).drop_last() =~= kbds.take(i as int));
            assert(kbds.take(i + 1).last() == kbds[i as int]);
        }
        if 0xa0000000 <= id && id < 0xb0000000 && id % 0x10000 == lcid {
            let hi = (id / 0x10000) as i64;
            if hi > max {
                max = hi;
            }
        }
        i = i + 1;
    }
    proof {
        assert(kbds.take(kbds.len() as int) =~= kbds);
        lemma_max_custom_seq_bounds(kbds, lcid);
    }
    if max < 0 {
        make_id(0xa000, lcid)
    } else {
        make_id((max + 1) as u32, lcid)
    }
}

/// The layout id stored in a record, with absence reading as zero, exactly
/// as the allocator's enumeration treats a missing or unreadable value.
pub open spec fn spec_stored_layout_id(k: KbdView) -> u32 {
    match k.layout_id {
        Some(v) => v,
        None => 0u32,
    }
}

/// Highest layout id stored anywhere in the tree, custom or not; zero when
/// the tree is empty.
pub open spec fn spec_max_layout_id(kbds: Seq<KbdView>) -> u32
    decreases kbds.len(),
{
    if kbds.len() == 0 {
        0u32
    } else {
        let rest = spec_max_layout_id(kbds.drop_last());
        if spec_stored_layout_id(kbds.last()) > rest {
            spec_stored_layout_id(kbds.last())
        } else {
            rest
        }
    }
}

pub proof fn lemma_max_layout_id_ge(kbds: Seq<KbdView>, i: int)
    requires
        0 <= i < kbds.len(),
    ensures
        spec_max_layout_id(kbds) >= spec_stored_layout_id(kbds[i]),
    decreases kbds.len(),
{
    if i < kbds.len() - 1 {
        lemma_max_layout_id_ge(kbds.drop_last(), i);
    }
}

/// The next free layout id: one more than the highest stored anywhere. This
/// id space is global across all layouts, never scoped to one locale. The
/// result is strictly greater than every stored layout id.
pub fn first_available_layout_id(state: &SystemState) -> (r: u32)
    requires
        spec_max_layout_id(state@.keyboards) < 0xffffffff,
    ensures
        r == spec_max_layout_id(state@.keyboards) + 1,
        forall|i: int|
            0 <= i < state@.keyboards.len() ==> r > spec_stored_layout_id(
                #[trigger] state@.keyboards[i],
            ),
{
    let ghost kbds = state@.keyboards;
    let mut max: u32 = 0;
    let mut i: usize = 0;
    proof {
        assert(kbds.take(0) =~= Seq::<KbdView>::empty());
    }
    while i < state.keyboards.len()
        invariant
            0 <= i <= state.keyboards@.len(),
            kbds == state@.keyboards,
            kbds.len() == state.keyboards@.len(),
            forall|j: int| 0 <= j < kbds.len() ==> kbds[j] == #[trigger] state.keyboards@[j]@,
            max == spec_max_layout_id(kbds.take(i as int)),
        decreases state.keyboards@.len() - i,
    {
        proof {
            assert(kbds.take(i + 1).drop_last() =~= kbds.take(i as int));
            assert(kbds.take(i + 1).last() == kbds[i as int]);
        }
        let stored: u32 = match state.keyboards[i].layout_id {
            Some(v) => v,
            None => 0,
        };
        if stored > max {
            max = stored;
        }
        i = i + 1;
    }
    proof {
        assert(kbds.take(kbds.len() as int) =~= kbds);
        assert forall|j: int| 0 <= j < kbds.len() implies max + 1 > spec_stored_layout_id(
            #[trigger] kbds[j],
        ) by {
            lemma_max_layout_id_ge(kbds, j);
        }
    }
    max + 1
}

// ---------------------------------------------------------------------------
// Record creation
// ---------------------------------------------------------------------------

/// The sixteen-bit locale half used in new key names: the resolved locale
/// identifier, truncated to its low sixteen bits.
pub open spec fn spec_tag_lcid16(s: StateView, tag: Seq<char>) -> u32 {
    (crate::spec_lcid_of_resolved(spec_lcid_lookup(s.locales, tag)) % 0x10000) as u32
}

/// The record `create` writes, in full.
pub open spec fn spec_new_record(
    s: StateView,
    tag: Seq<char>,
    display_name: Seq<char>,
    product_code: Seq<char>,
    layout_file: Seq<char>,
    layout_name: Seq<char>,
) -> KbdView {
    KbdView {
        key_id: spec_next_regkey_id(s.keyboards, spec_tag_lcid16(s, tag)),
        layout_id: Some((spec_max_layout_id(s.keyboards) + 1) as u32),
        product_code: Some(product_code),
        language_name: Some(display_name),
        layout_file: Some(layout_file),
        layout_text: Some(layout_name),
        locale_name: Some(tag),
        language_display_name: Some(
            "@%SystemRoot%\\system32\\"@ + layout_file + ",-1100"@,
        ),
        layout_display_name: Some("@%SystemRoot%\\system32\\"@ + layout_file + ",-1000"@),
    }
}

impl KeyboardRegKey {
    /// Allocates both identifiers and writes a complete record into the
    /// keyboard-layouts tree. Nothing else in the state changes.
    pub fn create(
        state: &mut SystemState,
        tag: &str,
        display_name: &str,
        product_code: &str,
        layout_file: &str,
        layout_name: &str,
    ) -> (r: KeyboardRegKey)
        requires
            spec_max_custom_seq(
                old(state)@.keyboards,
                spec_tag_lcid16(old(state)@, tag@),
            ) < 0xffff,
            spec_max_layout_id(old(state)@.keyboards) < 0xffffffff,
        ensures
            r@ == spec_new_record(
                old(state)@,
                tag@,
                display_name@,
                product_code@,
                layout_file@,
                layout_name@,
            ),
            final(state)@ == (StateView {
                keyboards: old(state)@.keyboards.push(r@),
                ..old(state)@
            }),
    {
        let lcid16: u32 = crate::lcid(state, tag) % 0x10000;
        let key_id = first_available_keyboard_regkey_id(state, lcid16);
        let layout_id = first_available_layout_id(state);

        let mut language_display: String = "@%SystemRoot%\\system32\\".to_owned();
        language_display.append(layout_file);
        language_display.append(",-1100");
        let mut layout_display: String = "@%SystemRoot%\\system32\\".to_owned();
        layout_display.append(layout_file);
        layout_display.append(",-1000");

        let record = KeyboardRegKey {
            key_id,
            layout_id: Some(layout_id),
            product_code: Some(product_code.to_owned()),
            language_name: Some(display_name.to_owned()),
            layout_file: Some(layout_file.to_owned()),
            layout_text: Some(layout_name.to_owned()),
            locale_name: Some(tag.to_owned()),
            language_display_name: Some(language_display),
            layout_display_name: Some(layout_display),
        };
        let out = record.duplicate();
        state.keyboards.push(record);
        proof {
            assert(state@.keyboards =~= old(state)@.keyboards.push(out@));
            assert(state@ =~= (StateView {
                keyboards: old(state)@.keyboards.push(out@),
                ..old(state)@
            }));
        }
        out
    }
}

// ---------------------------------------------------------------------------
// Install
// ---------------------------------------------------------------------------

/// What a successful install does to the state: one new record, nothing else.
pub open spec fn spec_install(
    s: StateView,
    tag: Seq<char>,
    layout_name: Seq<char>,
    product_code: Seq<char>,
    layout_file: Seq<char>,
    display_name: Option<Seq<char>>,
) -> StateView {
    let lang_name = match display_name {
        Some(d) => d,
        None => s.locales[spec_locale_idx(s.locales, tag)].name,
    };
    StateView {
        keyboards: s.keyboards.push(
            spec_new_record(s, tag, lang_name, product_code, layout_file, layout_name),
        ),
        ..s
    }
}

/// Installs a keyboard layout: fails fast with `AlreadyExists` when a record
/// already carries this product code (and then changes nothing), otherwise
/// resolves the display language name when none is supplied and writes a
/// complete record.
pub fn install(
    state: &mut SystemState,
    tag: &str,
    layout_name: &str,
    product_code: &str,
    layout_file: &str,
    display_name: Option<&str>,
) -> (r: Result<(), Error>)
    requires
        display_name is None ==> spec_has_locale(old(state)@.locales, tag@),
        !spec_has_code(old(state)@.keyboards, product_code@) ==> spec_max_custom_seq(
            old(state)@.keyboards,
            spec_tag_lcid16(old(state)@, tag@),
        ) < 0xffff && spec_max_layout_id(old(state)@.keyboards) < 0xffffffff,
    ensures
        spec_has_code(old(state)@.keyboards, product_code@) ==> r == Err::<(), Error>(
            Error::AlreadyExists,
        ) && final(state)@ == old(state)@,
        !spec_has_code(old(state)@.keyboards, product_code@) ==> r == Ok::<(), Error>(())
            && final(state)@ == spec_install(
            old(state)@,
            tag@,
            layout_name@,
            product_code@,
            layout_file@,
            match display_name {
                Some(d) => Some(d@),
                None => None,
            },
        ),
{
    if let Some(_) = KeyboardRegKey::find_by_product_code(state, product_code) {
        return Err(Error::AlreadyExists);
    }

    let lang_name: String = match display_name {
        Some(v) => v.to_owned(),
        None => KeyboardRegKey::language_name_for_tag(state, tag),
    };

    KeyboardRegKey::create(state, tag, lang_name.as_str(), product_code, layout_file, layout_name);
    Ok(())
}

// ---------------------------------------------------------------------------
// Cleanup: duplicate product codes and missing layout DLLs
// ---------------------------------------------------------------------------

/// Whether `k` is a custom record whose product code some earlier custom
/// record already carries.
pub open spec fn spec_is_dup(earlier: Seq<KbdView>, k: KbdView) -> bool {
    &&& is_custom_id(k.key_id)
    &&& k.product_code is Some
    &&& exists|j: int|
        0 <= j < earlier.len() && is_custom_id(#[trigger] earlier[j].key_id)
            && earlier[j].product_code == k.product_code
}

/// The keyboards tree with every duplicated custom record removed: only the
/// first custom record per product code survives.
pub open spec fn spec_dedup_keyboards(kbds: Seq<KbdView>) -> Seq<KbdView>
    decreases kbds.len(),
{
    if kbds.len() == 0 {
        kbds
    } else {
        let pre = spec_dedup_keyboards(kbds.drop_last());
        if spec_is_dup(kbds.drop_last(), kbds.last()) {
            pre
        } else {
            pre.push(kbds.last())
        }
    }
}

/// Scans the installed custom records in store order and deletes every one
/// whose product code was already seen.
pub fn remove_duplicate_guids(state: &mut SystemState)
    ensures
        final(state)@ == (StateView {
            keyboards: spec_dedup_keyboards(old(state)@.keyboards),
            ..old(state)@
        }),
{
    let ghost kbds = state@.keyboards;
    let mut kept: Vec<KeyboardRegKey> = Vec::new();
    let mut i: usize = 0;
    proof {
        assert(kbd_views(kept@) =~= spec_dedup_keyboards(kbds.take(0)));
    }
    while i < state.keyboards.len()
        invariant
            0 <= i <= state.keyboards@.len(),
            kbds == state@.keyboards,
            kbds.len() == state.keyboards@.len(),
            forall|j: int| 0 <= j < kbds.len() ==> kbds[j] == #[trigger] state.keyboards@[j]@,
            kbd_views(kept@) == spec_dedup_keyboards(kbds.take(i as int)),
        decreases state.keyboards@.len() - i,
    {
        let ghost earlier = kbds.take(i as int);
        let id = state.keyboards[i].key_id;
        let mut dup = false;
        if 0xa0000000 <= id && id < 0xb0000000 {
            if let Some(code) = state.keyboards[i].product_code.as_ref() {
                let mut j: usize = 0;
                while j < i
                    invariant
                        0 <= j <= i < state.keyboards@.len(),
                        kbds.len() == state.keyboards@.len(),
                        forall|m: int|
                            0 <= m < kbds.len() ==> kbds[m] == #[trigger] state.keyboards@[m]@,
                        earlier == kbds.take(i as int),
                        forall|m: int| 0 <= m < i ==> #[trigger] earlier[m] == kbds[m],
                        state@.keyboards == kbds,
                        Some(code@) == kbds[i as int].product_code,
                        !dup ==> forall|m: int|
                            0 <= m < j ==> !(is_custom_id(#[trigger] earlier[m].key_id)
                                && earlier[m].product_code == kbds[i as int].product_code),
                        dup ==> spec_is_dup(earlier, kbds[i as int]),
                        is_custom_id(kbds[i as int].key_id),
                        kbds[i as int].product_code is Some,
                    decreases i - j,
                {
                    if !dup {
                        let other = state.keyboards[j].key_id;
                        if 0xa0000000 <= other && other < 0xb0000000 {
                            if let Some(c2) = state.keyboards[j].product_code.as_ref() {
                                if *c2 == *code {
                                    proof {
                                        assert(is_custom_id(earlier[j as int].key_id)
                                            && earlier[j as int].product_code == kbds[
                                            i as int
                                        ].product_code);
                                    }
                                    dup = true;
                                }
                            }
                        }
                    }
                    j = j + 1;
                }
            }
        }
        proof {
            assert(kbds.take(i + 1).drop_last() =~= earlier);
            assert(kbds.take(i + 1).last() == kbds[i as int]);
            assert(dup == spec_is_dup(earlier, kbds[i as int]));
        }
        if !dup {
            kept.push(state.keyboards[i].duplicate());
            proof {
                assert(kbd_views(kept@) =~= spec_dedup_keyboards(kbds.take(i + 1)));
            }
        } else {
            proof {
                assert(kbd_views(kept@) =~= spec_dedup_keyboards(kbds.take(i + 1)));
            }
        }
        i = i + 1;
    }
    proof {
        assert(kbds.take(kbds.len() as int) =~= kbds);
    }
    state.keyboards = kept;
    proof {
        assert(state@ =~= (StateView {
            keyboards: spec_dedup_keyboards(old(state)@.keyboards),
            ..old(state)@
        }));
    }
}

/// Whether the cleanup keeps a record: anything not custom stays, and a
/// custom record stays unless its layout DLL is named and missing from the
/// system directory.
pub open spec fn spec_dll_ok(files: Seq<Seq<char>>, k: KbdView) -> bool {
    !(is_custom_id(k.key_id) && match k.layout_file {
        Some(f) => !files.contains(f),
        None => false,
    })
}

/// Deletes every custom record whose referenced layout DLL is not present
/// in the system directory.
pub fn remove_invalid_dlls(state: &mut SystemState)
    ensures
        final(state)@ == (StateView {
            keyboards: old(state)@.keyboards.filter(
                |k: KbdView| spec_dll_ok(old(state)@.system32_files, k),
            ),
            ..old(state)@
        }),
{
    let ghost kbds = state@.keyboards;
    let ghost p = |k: KbdView| spec_dll_ok(state@.system32_files, k);
    let mut kept: Vec<KeyboardRegKey> = Vec::new();
    let mut i: usize = 0;
    proof {
        reveal(Seq::filter);
        assert(kbd_views(kept@) =~= kbds.take(0).filter(p));
    }
    while i < state.keyboards.len()
        invariant
            0 <= i <= state.keyboards@.len(),
            kbds == state@.keyboards,
            p == (|k: KbdView| spec_dll_ok(state@.system32_files, k)),
            kbds.len() == state.keyboards@.len(),
            forall|j: int| 0 <= j < kbds.len() ==> kbds[j] == #[trigger] state.keyboards@[j]@,
            kbd_views(kept@) == kbds.take(i as int).filter(p),
        decreases state.keyboards@.len() - i,
    {
        let id = state.keyboards[i].key_id;
        let mut keep = true;
        if 0xa0000000 <= id && id < 0xb0000000 {
            if let Some(file) = state.keyboards[i].layout_file.as_ref() {
                if !state.dll_present(file.as_str()) {
                    keep = false;
                }
            }
        }
        proof {
            reveal(Seq::filter);
            assert(kbds.take(i + 1).drop_last() =~= kbds.take(i as int));
            assert(kbds.take(i + 1).last() == kbds[i as int]);
            assert(keep == p(kbds[i as int]));
        }
        if keep {
            kept.push(state.keyboards[i].duplicate());
            proof {
                assert(kbd_views(kept@) =~= kbds.take(i + 1).filter(p));
            }
        } else {
            proof {
                assert(kbd_views(kept@) =~= kbds.take(i + 1).filter(p));
            }
        }
        i = i + 1;
    }
    proof {
        assert(kbds.take(kbds.len() as int) =~= kbds);
    }
    state.keyboards = kept;
    proof {
        assert(state@ =~= (StateView {
            keyboards: old(state)@.keyboards.filter(
                |k: KbdView| spec_dll_ok(old(state)@.system32_files, k),
            ),
            ..old(state)@
        }));
    }
}

// ---------------------------------------------------------------------------
// Composite cleanup and uninstall
// ---------------------------------------------------------------------------

/// Duplicate removal as a whole-state step.
pub open spec fn spec_remove_duplicate_guids(s: StateView) -> StateView {
    StateView { keyboards: spec_dedup_keyboards(s.keyboards), ..s }
}

/// Missing-DLL removal as a whole-state step.
pub open spec fn spec_remove_invalid_dlls(s: StateView) -> StateView {
    StateView {
        keyboards: s.keyboards.filter(|k: KbdView| spec_dll_ok(s.system32_files, k)),
        ..s
    }
}

/// The full cleanup of the keyboard and input-method layer: duplicates out,
/// records with missing DLLs out, dangling input-method references out.
pub open spec fn spec_remove_invalid(s: StateView) -> StateView {
    crate::keyboard_win8::spec_remove_invalid_kbids(
        spec_remove_invalid_dlls(spec_remove_duplicate_guids(s)),
    )
}

/// Removes duplicate records, records whose layout DLL is missing, and
/// input-method references to keyboards no longer installed, in that order.
pub fn remove_invalid(state: &mut SystemState)
    ensures
        final(state)@ == spec_remove_invalid(old(state)@),
{
    remove_duplicate_guids(state);
    remove_invalid_dlls(state);
    crate::keyboard_win8::remove_invalid_kbids(state);
}

/// Deletes the first record whose key name is `key_id`; the whole subtree
/// goes at once.
pub open spec fn spec_delete_keyboard(s: StateView, key_id: u32) -> StateView {
    let j = first_match(s.keyboards, |k: KbdView| k.key_id == key_id);
    if j >= 0 {
        StateView { keyboards: s.keyboards.remove(j), ..s }
    } else {
        s
    }
}

fn delete_keyboard_regkey(state: &mut SystemState, key_id: u32)
    ensures
        final(state)@ == spec_delete_keyboard(old(state)@, key_id),
{
    let ghost kbds = state@.keyboards;
    let ghost p = |k: KbdView| k.key_id == key_id;
    let mut i: usize = 0;
    while i < state.keyboards.len()
        invariant
            0 <= i <= state.keyboards@.len(),
            kbds == state@.keyboards,
            p == (|k: KbdView| k.key_id == key_id),
            kbds.len() == state.keyboards@.len(),
            forall|j: int| 0 <= j < kbds.len() ==> kbds[j] == #[trigger] state.keyboards@[j]@,
            forall|j: int| 0 <= j < i ==> !p(#[trigger] kbds[j]),
            state@ == old(state)@,
        decreases state.keyboards@.len() - i,
    {
        if state.keyboards[i].key_id == key_id {
            proof {
                lemma_first_match_at(kbds, p, i as int);
            }
            state.keyboards.remove(i);
            proof {
                assert(state@.keyboards =~= kbds.remove(i as int));
                assert(state@ =~= spec_delete_keyboard(old(state)@, key_id));
            }
            return ;
        }
        proof {
            assert(!p(kbds[i as int]));
        }
        i = i + 1;
    }
    proof {
        lemma_first_match(kbds, p);
        assert(state@ =~= spec_delete_keyboard(old(state)@, key_id));
    }
}

/// What uninstalling a product code does when a record carries it: the
/// record's subtree is deleted and a full cleanup pass runs, since removing
/// a keyboard can orphan language and input-method references.
pub open spec fn spec_uninstall(s: StateView, product_code: Seq<char>) -> StateView {
    let i = spec_find_by_code(s.keyboards, product_code);
    crate::win8::spec_clean(spec_delete_keyboard(s, s.keyboards[i].key_id))
}

/// Uninstalls the keyboard with this product code and runs the cleanup
/// engine; fails with `NotFound`, changing nothing, when no record carries
/// the code.
pub fn uninstall(state: &mut SystemState, product_code: &str) -> (r: Result<(), Error>)
    ensures
        spec_has_code(old(state)@.keyboards, product_code@) ==> r == Ok::<(), Error>(())
            && final(state)@ == spec_uninstall(old(state)@, product_code@),
        !spec_has_code(old(state)@.keyboards, product_code@) ==> r == Err::<(), Error>(
            Error::NotFound,
        ) && final(state)@ == old(state)@,
{
    if let Some(record) = KeyboardRegKey::find_by_product_code(state, product_code) {
        delete_keyboard_regkey(state, record.key_id);
        crate::win8::clean(state);
        return Ok(());
    }
    Err(Error::NotFound)
}

impl KeyboardRegKey {
    /// The display name the language-name service holds for `tag`.
    fn language_name_for_tag(state: &SystemState, tag: &str) -> (r: String)
        requires
            spec_has_locale(state@.locales, tag@),
        ensures
            r@ == state@.locales[spec_locale_idx(state@.locales, tag@)].name,
    {
        let data = state.get_language_names(tag);
        match data {
            Some(d) => d.name,
            None => {
                proof {
                    assert(false);
                }
                String::new()
            },
        }
    }
}

} // verus!
