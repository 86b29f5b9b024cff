//! The in-memory model of every registry tree and platform service the tool
//! reconciles.
//!
//! The registry is the tool's only datastore, and the platform calls it
//! makes (locale resolution, language-name lookup) are pure reads of OS
//! tables. Both are modelled here as one value, [`SystemState`]: the
//! keyboard-layouts tree, the per-language user profiles, the Substitutes and
//! Preload tables, the locale table, a snapshot of the system DLL directory,
//! and the mirrored default-user hive. Every operation of the library is a
//! function over this state; an adapter that talks to the live OS supplies
//! and persists it.

use vstd::prelude::*;

use crate::types::InputListItem;

verus! {

// ---------------------------------------------------------------------------
// First match in a sequence
// ---------------------------------------------------------------------------

/// Index of the first element satisfying `p`, or -1 when none does.
pub open spec fn first_match<A>(s: Seq<A>, p: spec_fn(A) -> bool) -> int
    decreases s.len(),
{
    if s.len() == 0 {
        -1
    } else if p(s[0]) {
        0
    } else {
        let r = first_match(s.drop_first(), p);
        if r < 0 {
            -1
        } else {
            1 + r
        }
    }
}

pub proof fn lemma_first_match<A>(s: Seq<A>, p: spec_fn(A) -> bool)
    ensures
        first_match(s, p) == -1 <==> (forall|i: int| 0 <= i < s.len() ==> !p(#[trigger] s[i])),
        first_match(s, p) != -1 ==> 0 <= first_match(s, p) < s.len() && p(s[first_match(s, p)])
            && (forall|j: int| 0 <= j < first_match(s, p) ==> !p(#[trigger] s[j])),
    decreases s.len(),
{
    if s.len() == 0 {
    } else if p(s[0]) {
    } else {
        let t = s.drop_first();
        lemma_first_match(t, p);
        assert(forall|i: int| 0 <= i < t.len() ==> #[trigger] t[i] == s[i + 1]);
        let r = first_match(t, p);
        if r < 0 {
            assert forall|i: int| 0 <= i < s.len() implies !p(#[trigger] s[i]) by {
                if i > 0 {
                    assert(!p(t[i - 1]));
                }
            }
        } else {
            assert(first_match(s, p) == 1 + r);
            assert(p(t[r]));
            assert forall|j: int| 0 <= j < 1 + r implies !p(#[trigger] s[j]) by {
                if j > 0 {
                    assert(!p(t[j - 1]));
                }
            }
        }
    }
}

/// Mapping distributes over push.
pub proof fn lemma_map_values_push<A, B>(s: Seq<A>, f: spec_fn(A) -> B, x: A)
    ensures
        (s.push(x)).map_values(f) == s.map_values(f).push(f(x)),
{
    assert forall|j: int|
        0 <= j < s.len() + 1 implies (s.push(x)).map_values(f)[j] == s.map_values(f).push(
        f(x),
    )[j] by {
        if j < s.len() {
            assert(s.push(x)[j] == s[j]);
        } else {
            assert(s.push(x)[j] == x);
        }
    }
    assert((s.push(x)).map_values(f) =~= s.map_values(f).push(f(x)));
}

/// Taking views distributes over push.
pub proof fn lemma_string_views_push(s: Seq<String>, x: String)
    ensures
        string_views(s.push(x)) == string_views(s).push(x@),
{
    assert forall|j: int|
        0 <= j < s.len() + 1 implies string_views(s.push(x))[j] == string_views(s).push(
        x@,
    )[j] by {
        if j < s.len() {
            assert(s.push(x)[j] == s[j]);
        } else {
            assert(s.push(x)[j] == x);
        }
    }
    assert(string_views(s.push(x)) =~= string_views(s).push(x@));
}

/// Filtering distributes over push.
pub proof fn lemma_filter_push<A>(s: Seq<A>, p: spec_fn(A) -> bool, x: A)
    ensures
        (s.push(x)).filter(p) == if p(x) {
            s.filter(p).push(x)
        } else {
            s.filter(p)
        },
{
    reveal(Seq::filter);
    assert(s.push(x).drop_last() =~= s);
    assert(s.push(x).last() == x);
}

/// The characterization in the other direction: a witness position pins the
/// first match down.
pub proof fn lemma_first_match_at<A>(s: Seq<A>, p: spec_fn(A) -> bool, i: int)
    requires
        0 <= i < s.len(),
        p(s[i]),
        forall|j: int| 0 <= j < i ==> !p(#[trigger] s[j]),
    ensures
        first_match(s, p) == i,
{
    lemma_first_match(s, p);
    let f = first_match(s, p);
    if f == -1 {
        assert(!p(s[i]));
    } else if f < i {
        assert(!p(s[f]));
    } else if f > i {
        assert(!p(s[i]));
    }
}

// ---------------------------------------------------------------------------
// Registry key identifiers
// ---------------------------------------------------------------------------

/// A keyboard-layouts key name is eight hex digits; the tool's own entries
/// are the ones whose first digit is `a`.
pub open spec fn is_custom_id(id: u32) -> bool {
    0xa0000000 <= id < 0xb0000000
}

/// The sequence-number half of a key identifier.
pub open spec fn id_high16(id: u32) -> u32 {
    (id / 0x10000) as u32
}

/// The locale half of a key identifier.
pub open spec fn id_low16(id: u32) -> u32 {
    (id % 0x10000) as u32
}

pub open spec fn spec_make_id(hi: u32, lo: u32) -> u32
    recommends
        hi < 0x10000,
        lo < 0x10000,
{
    (hi * 0x10000 + lo) as u32
}

pub proof fn lemma_make_id(hi: u32, lo: u32)
    requires
        hi < 0x10000,
        lo < 0x10000,
    ensures
        id_high16(spec_make_id(hi, lo)) == hi,
        id_low16(spec_make_id(hi, lo)) == lo,
        hi * 0x10000 + lo < 0x100000000,
{
    assert(hi * 0x10000 + lo < 0x100000000) by (nonlinear_arith)
        requires hi < 0x10000, lo < 0x10000;
    assert((hi * 0x10000 + lo) / 0x10000 == hi && (hi * 0x10000 + lo) % 0x10000 == lo)
        by (nonlinear_arith)
        requires hi < 0x10000, lo < 0x10000;
}

/// Builds a key identifier from its sequence number and locale halves.
pub fn make_id(hi: u32, lo: u32) -> (r: u32)
    requires
        hi < 0x10000,
        lo < 0x10000,
    ensures
        r == spec_make_id(hi, lo),
        id_high16(r) == hi,
        id_low16(r) == lo,
{
    proof {
        lemma_make_id(hi, lo);
    }
    hi * 0x10000 + lo
}

// ---------------------------------------------------------------------------
// Model records
// ---------------------------------------------------------------------------

/// One keyboard-layout record under the keyboard-layouts root. `key_id` is
/// the parsed key name; the other fields are the key's values, absent when
/// the registry does not hold them.
pub struct KeyboardRegKey {
    pub key_id: u32,
    pub layout_id: Option<u32>,
    pub product_code: Option<String>,
    pub language_name: Option<String>,
    pub layout_file: Option<String>,
    pub layout_text: Option<String>,
    pub locale_name: Option<String>,
    pub language_display_name: Option<String>,
    pub layout_display_name: Option<String>,
}

#[verifier::ext_equal]
pub struct KbdView {
    pub key_id: u32,
    pub layout_id: Option<u32>,
    pub product_code: Option<Seq<char>>,
    pub language_name: Option<Seq<char>>,
    pub layout_file: Option<Seq<char>>,
    pub layout_text: Option<Seq<char>>,
    pub locale_name: Option<Seq<char>>,
    pub language_display_name: Option<Seq<char>>,
    pub layout_display_name: Option<Seq<char>>,
}

pub open spec fn view_opt_string(o: Option<String>) -> Option<Seq<char>> {
    match o {
        Some(s) => Some(s@),
        None => None,
    }
}

impl View for KeyboardRegKey {
    type V = KbdView;

    open spec fn view(&self) -> KbdView {
        KbdView {
            key_id: self.key_id,
            layout_id: self.layout_id,
            product_code: view_opt_string(self.product_code),
            language_name: view_opt_string(self.language_name),
            layout_file: view_opt_string(self.layout_file),
            layout_text: view_opt_string(self.layout_text),
            locale_name: view_opt_string(self.locale_name),
            language_display_name: view_opt_string(self.language_display_name),
            layout_display_name: view_opt_string(self.layout_display_name),
        }
    }
}

/// One per-language profile subtree, together with the input methods the OS
/// has enabled for that language. A language is enabled exactly when a
/// profile for its tag is present.
pub struct LanguageProfile {
    pub tag: String,
    pub cached_language_name: Option<String>,
    pub transient_lang_id: Option<u32>,
    pub features_to_install: Option<u32>,
    pub methods: Vec<InputListItem>,
}

#[verifier::ext_equal]
pub struct ProfileView {
    pub tag: Seq<char>,
    pub cached_language_name: Option<Seq<char>>,
    pub transient_lang_id: Option<u32>,
    pub features_to_install: Option<u32>,
    pub methods: Seq<InputListItem>,
}

impl View for LanguageProfile {
    type V = ProfileView;

    open spec fn view(&self) -> ProfileView {
        ProfileView {
            tag: self.tag@,
            cached_language_name: view_opt_string(self.cached_language_name),
            transient_lang_id: self.transient_lang_id,
            features_to_install: self.features_to_install,
            methods: self.methods@,
        }
    }
}

/// One Substitutes value: the substitute identifier (the value name) and the
/// keyboard it stands in for (the value data).
#[derive(PartialEq, Eq, Structural, Clone, Copy, Debug)]
pub struct SubstituteEntry {
    pub id: u32,
    pub target: u32,
}

/// One Preload value: a decimal index name and the keyboard or substitute
/// identifier stored under it.
#[derive(PartialEq, Eq, Structural, Clone, Copy, Debug)]
pub struct PreloadEntry {
    pub index: usize,
    pub value: u32,
}

/// One row of the platform's locale table: what tag resolution, locale
/// lookup and the language-name service answer for a tag. An `lcid` of zero
/// stands for a tag the OS knows no locale identifier for.
pub struct LocaleEntry {
    pub tag: String,
    pub canonical: String,
    pub lcid: u32,
    pub name: String,
    pub english_name: String,
    pub localised_name: String,
    pub script_name: String,
}

#[verifier::ext_equal]
pub struct LocaleView {
    pub tag: Seq<char>,
    pub canonical: Seq<char>,
    pub lcid: u32,
    pub name: Seq<char>,
    pub english_name: Seq<char>,
    pub localised_name: Seq<char>,
    pub script_name: Seq<char>,
}

impl View for LocaleEntry {
    type V = LocaleView;

    open spec fn view(&self) -> LocaleView {
        LocaleView {
            tag: self.tag@,
            canonical: self.canonical@,
            lcid: self.lcid,
            name: self.name@,
            english_name: self.english_name@,
            localised_name: self.localised_name@,
            script_name: self.script_name@,
        }
    }
}

/// The language-name service's answer for one tag.
pub struct LanguageData {
    pub tag: String,
    pub name: String,
    pub english_name: String,
    pub localised_name: String,
    pub script_name: String,
}

#[verifier::ext_equal]
pub struct LanguageDataView {
    pub tag: Seq<char>,
    pub name: Seq<char>,
    pub english_name: Seq<char>,
    pub localised_name: Seq<char>,
    pub script_name: Seq<char>,
}

impl View for LanguageData {
    type V = LanguageDataView;

    open spec fn view(&self) -> LanguageDataView {
        LanguageDataView {
            tag: self.tag@,
            name: self.name@,
            english_name: self.english_name@,
            localised_name: self.localised_name@,
            script_name: self.script_name@,
        }
    }
}

/// The default-user template hive: the trees mirrored there when a keyboard
/// is enabled for all new users.
pub struct DefaultUserState {
    pub languages: Vec<LanguageProfile>,
    pub substitutes: Vec<SubstituteEntry>,
    pub preload: Vec<PreloadEntry>,
}

#[verifier::ext_equal]
pub struct DefaultUserView {
    pub languages: Seq<ProfileView>,
    pub substitutes: Seq<SubstituteEntry>,
    pub preload: Seq<PreloadEntry>,
}

impl View for DefaultUserState {
    type V = DefaultUserView;

    open spec fn view(&self) -> DefaultUserView {
        DefaultUserView {
            languages: profile_views(self.languages@),
            substitutes: self.substitutes@,
            preload: self.preload@,
        }
    }
}

pub open spec fn kbd_views(s: Seq<KeyboardRegKey>) -> Seq<KbdView> {
    s.map_values(|k: KeyboardRegKey| k@)
}

pub open spec fn profile_views(s: Seq<LanguageProfile>) -> Seq<ProfileView> {
    s.map_values(|p: LanguageProfile| p@)
}

pub open spec fn locale_views(s: Seq<LocaleEntry>) -> Seq<LocaleView> {
    s.map_values(|l: LocaleEntry| l@)
}

pub open spec fn string_views(s: Seq<String>) -> Seq<Seq<char>> {
    s.map_values(|x: String| x@)
}

/// The whole reconciled world: the current user's registry trees, the
/// machine-wide keyboard-layouts tree, the read-only platform environment
/// (locale table, system DLL directory), the foreground keyboard, and the
/// default-user hive.
pub struct SystemState {
    pub keyboards: Vec<KeyboardRegKey>,
    pub languages: Vec<LanguageProfile>,
    pub substitutes: Vec<SubstituteEntry>,
    pub preload: Vec<PreloadEntry>,
    pub locales: Vec<LocaleEntry>,
    pub system32_files: Vec<String>,
    pub active_keyboard: u32,
    pub default_user: DefaultUserState,
}

#[verifier::ext_equal]
pub struct StateView {
    pub keyboards: Seq<KbdView>,
    pub languages: Seq<ProfileView>,
    pub substitutes: Seq<SubstituteEntry>,
    pub preload: Seq<PreloadEntry>,
    pub locales: Seq<LocaleView>,
    pub system32_files: Seq<Seq<char>>,
    pub active_keyboard: u32,
    pub default_user: DefaultUserView,
}

impl View for SystemState {
    type V = StateView;

    open spec fn view(&self) -> StateView {
        StateView {
            keyboards: kbd_views(self.keyboards@),
            languages: profile_views(self.languages@),
            substitutes: self.substitutes@,
            preload: self.preload@,
            locales: locale_views(self.locales@),
            system32_files: string_views(self.system32_files@),
            active_keyboard: self.active_keyboard,
            default_user: self.default_user@,
        }
    }
}

// ---------------------------------------------------------------------------
// Locale lookups
// ---------------------------------------------------------------------------

/// Index of the locale-table row for `tag`, or -1.
pub open spec fn spec_locale_idx(locales: Seq<LocaleView>, tag: Seq<char>) -> int {
    first_match(locales, |l: LocaleView| l.tag == tag)
}

/// Index of the enabled-language profile for `tag`, or -1.
pub open spec fn spec_language_idx(langs: Seq<ProfileView>, tag: Seq<char>) -> int {
    first_match(langs, |l: ProfileView| l.tag == tag)
}

pub open spec fn spec_has_language(langs: Seq<ProfileView>, tag: Seq<char>) -> bool {
    spec_language_idx(langs, tag) >= 0
}

pub open spec fn spec_has_locale(locales: Seq<LocaleView>, tag: Seq<char>) -> bool {
    spec_locale_idx(locales, tag) >= 0
}

/// What locale lookup answers for `tag`: the row's identifier when the table
/// has the tag and the OS knows an identifier for it.
pub open spec fn spec_lcid_lookup(locales: Seq<LocaleView>, tag: Seq<char>) -> Option<u32> {
    let i = spec_locale_idx(locales, tag);
    if i >= 0 && locales[i].lcid != 0 {
        Some(locales[i].lcid)
    } else {
        None
    }
}

impl SystemState {
    /// Position of the locale-table row for `tag`.
    pub fn find_locale(&self, tag: &str) -> (r: Option<usize>)
        ensures
            r matches Some(i) ==> spec_locale_idx(self@.locales, tag@) == i as int && (i as int)
                < self@.locales.len() && self@.locales[i as int].tag == tag@,
            r is None ==> spec_locale_idx(self@.locales, tag@) == -1,
    {
        let tag_owned: String = tag.to_owned();
        let ghost locs = self@.locales;
        let ghost p = |l: LocaleView| l.tag == tag@;
        let mut i: usize = 0;
        while i < self.locales.len()
            invariant
                0 <= i <= self.locales@.len(),
                tag_owned@ == tag@,
                locs == self@.locales,
                p == (|l: LocaleView| l.tag == tag@),
                locs.len() == self.locales@.len(),
                forall|j: int| 0 <= j < locs.len() ==> locs[j] == #[trigger] self.locales@[j]@,
                forall|j: int| 0 <= j < i ==> !p(#[trigger] locs[j]),
            decreases self.locales@.len() - i,
        {
            if self.locales[i].tag == tag_owned {
                proof {
                    lemma_first_match_at(locs, p, i as int);
                }
                return Some(i);
            }
            i = i + 1;
        }
        proof {
            lemma_first_match(locs, p);
        }
        None
    }

    /// The locale identifier the OS resolves `tag` to, when it has one.
    /// Answers as the platform's locale services do: `None` for an unknown
    /// tag and for one without a locale identifier.
    pub fn lcid_from_bcp47(&self, tag: &str) -> (r: Option<u32>)
        ensures
            r == spec_lcid_lookup(self@.locales, tag@),
    {
        match self.find_locale(tag) {
            Some(i) => {
                let lcid = self.locales[i].lcid;
                if lcid != 0 {
                    Some(lcid)
                } else {
                    None
                }
            },
            None => None,
        }
    }

    /// The canonical form the OS resolves `tag` to, when the tag is known.
    pub fn resolve_locale_name(&self, tag: &str) -> (r: Option<String>)
        ensures
            ({
                let i = spec_locale_idx(self@.locales, tag@);
                if i >= 0 {
                    r matches Some(c) && c@ == self@.locales[i].canonical
                } else {
                    r is None
                }
            }),
    {
        match self.find_locale(tag) {
            Some(i) => Some(self.locales[i].canonical.clone()),
            None => None,
        }
    }

    /// The language-name service's answer for `tag`: its display names, when
    /// the locale table knows the tag at all.
    pub fn get_language_names(&self, tag: &str) -> (r: Option<LanguageData>)
        ensures
            ({
                let i = spec_locale_idx(self@.locales, tag@);
                if i >= 0 {
                    r matches Some(d) && d@ == (LanguageDataView {
                        tag: tag@,
                        name: self@.locales[i].name,
                        english_name: self@.locales[i].english_name,
                        localised_name: self@.locales[i].localised_name,
                        script_name: self@.locales[i].script_name,
                    })
                } else {
                    r is None
                }
            }),
    {
        match self.find_locale(tag) {
            Some(i) => Some(
                LanguageData {
                    tag: tag.to_owned(),
                    name: self.locales[i].name.clone(),
                    english_name: self.locales[i].english_name.clone(),
                    localised_name: self.locales[i].localised_name.clone(),
                    script_name: self.locales[i].script_name.clone(),
                },
            ),
            None => None,
        }
    }

    /// Position of the profile for `tag` among the enabled languages.
    pub fn find_language(&self, tag: &str) -> (r: Option<usize>)
        ensures
            r matches Some(i) ==> spec_language_idx(self@.languages, tag@) == i as int && (
            i as int) < self@.languages.len() && self@.languages[i as int].tag == tag@,
            r is None ==> spec_language_idx(self@.languages, tag@) == -1,
    {
        let tag_owned: String = tag.to_owned();
        let ghost langs = self@.languages;
        let ghost p = |l: ProfileView| l.tag == tag@;
        let mut i: usize = 0;
        while i < self.languages.len()
            invariant
                0 <= i <= self.languages@.len(),
                tag_owned@ == tag@,
                langs == self@.languages,
                p == (|l: ProfileView| l.tag == tag@),
                langs.len() == self.languages@.len(),
                forall|j: int| 0 <= j < langs.len() ==> langs[j] == #[trigger] self.languages@[j]@,
                forall|j: int| 0 <= j < i ==> !p(#[trigger] langs[j]),
            decreases self.languages@.len() - i,
        {
            if self.languages[i].tag == tag_owned {
                proof {
                    lemma_first_match_at(langs, p, i as int);
                }
                return Some(i);
            }
            i = i + 1;
        }
        proof {
            lemma_first_match(langs, p);
        }
        None
    }

    /// Whether a layout DLL of this name is present in the system directory.
    pub fn dll_present(&self, file: &str) -> (r: bool)
        ensures
            r == self@.system32_files.contains(file@),
    {
        let file_owned: String = file.to_owned();
        let mut i: usize = 0;
        while i < self.system32_files.len()
            invariant
                0 <= i <= self.system32_files@.len(),
                file_owned@ == file@,
                self@.system32_files.len() == self.system32_files@.len(),
                forall|j: int|
                    0 <= j < self.system32_files@.len() ==> #[trigger] self@.system32_files[j]
                        == self.system32_files@[j]@,
                forall|j: int| 0 <= j < i ==> self@.system32_files[j] != file@,
            decreases self.system32_files@.len() - i,
        {
            if self.system32_files[i] == file_owned {
                proof {
                    assert(self@.system32_files[i as int] == file@);
                }
                return true;
            }
            i = i + 1;
        }
        false
    }
}

// ---------------------------------------------------------------------------
// Copy helpers (derived `Clone` says nothing to the verifier)
// ---------------------------------------------------------------------------

pub fn copy_opt_string(o: &Option<String>) -> (r: Option<String>)
    ensures
        view_opt_string(r) == view_opt_string(*o),
{
    match o.as_ref() {
        Some(s) => Some(s.clone()),
        None => None,
    }
}

pub fn copy_strings(v: &Vec<String>) -> (r: Vec<String>)
    ensures
        string_views(r@) == string_views(v@),
        r@.len() == v@.len(),
{
    let mut r: Vec<String> = Vec::new();
    let mut i: usize = 0;
    while i < v.len()
        invariant
            0 <= i <= v@.len(),
            r@.len() == i,
            forall|j: int| 0 <= j < i ==> #[trigger] r@[j] == v@[j],
        decreases v@.len() - i,
    {
        r.push(v[i].clone());
        i = i + 1;
    }
    proof {
        assert(string_views(r@) =~= string_views(v@));
    }
    r
}

pub fn copy_items(v: &Vec<InputListItem>) -> (r: Vec<InputListItem>)
    ensures
        r@ == v@,
{
    let mut r: Vec<InputListItem> = Vec::new();
    let mut i: usize = 0;
    while i < v.len()
        invariant
            0 <= i <= v@.len(),
            r@ == v@.take(i as int),
        decreases v@.len() - i,
    {
        r.push(v[i]);
        i = i + 1;
        proof {
            assert(v@.take(i as int) =~= v@.take(i - 1).push(v@[i - 1]));
        }
    }
    proof {
        assert(v@.take(v@.len() as int) =~= v@);
    }
    r
}

impl KeyboardRegKey {
    /// A fresh record with the same view.
    pub fn duplicate(&self) -> (r: KeyboardRegKey)
        ensures
            r@ == self@,
    {
        KeyboardRegKey {
            key_id: self.key_id,
            layout_id: self.layout_id,
            product_code: copy_opt_string(&self.product_code),
            language_name: copy_opt_string(&self.language_name),
            layout_file: copy_opt_string(&self.layout_file),
            layout_text: copy_opt_string(&self.layout_text),
            locale_name: copy_opt_string(&self.locale_name),
            language_display_name: copy_opt_string(&self.language_display_name),
            layout_display_name: copy_opt_string(&self.layout_display_name),
        }
    }
}

impl LanguageProfile {
    /// A fresh profile with the same view.
    pub fn duplicate(&self) -> (r: LanguageProfile)
        ensures
            r@ == self@,
    {
        LanguageProfile {
            tag: self.tag.clone(),
            cached_language_name: copy_opt_string(&self.cached_language_name),
            transient_lang_id: self.transient_lang_id,
            features_to_install: self.features_to_install,
            methods: copy_items(&self.methods),
        }
    }
}

} // verus!
