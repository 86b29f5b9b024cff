//! Text-input-processor references and their canonical textual form.
//!
//! An input method is identified by a 16-bit locale identifier and a 32-bit
//! keyboard-layout identifier, written `XXXX:YYYYYYYY` (four then eight hex
//! digits). Parsing is case-insensitive and strict about shape; output is
//! uppercase.

use vstd::prelude::*;

verus! {

/// One text-input-processor reference: a locale paired with a keyboard layout.
#[derive(PartialEq, Eq, Structural, Clone, Copy, Debug)]
pub struct InputListItem {
    pub lang_id: u16,
    pub tip_id: u32,
}

/// An ordered list of input-method references; order is meaningful to the OS.
pub struct InputList {
    items: Vec<InputListItem>,
}

impl View for InputList {
    type V = Seq<InputListItem>;

    closed spec fn view(&self) -> Seq<InputListItem> {
        self.items@
    }
}

// ---------------------------------------------------------------------------
// Hex digits: spec level
// ---------------------------------------------------------------------------

/// Value of a hex digit character, or -1 when the character is not one.
pub open spec fn hex_char_val(c: char) -> int {
    let n = c as int;
    if 48 <= n <= 57 {
        n - 48
    } else if 97 <= n <= 102 {
        n - 87
    } else if 65 <= n <= 70 {
        n - 55
    } else {
        -1
    }
}

pub open spec fn is_hex_char(c: char) -> bool {
    hex_char_val(c) >= 0
}

/// The lowercase hex digit character for a value below 16.
pub open spec fn hex_char_lower(d: int) -> char {
    if d < 10 {
        (48 + d) as char
    } else {
        (87 + d) as char
    }
}

/// The uppercase hex digit character for a value below 16.
pub open spec fn hex_char_upper(d: int) -> char {
    if d < 10 {
        (48 + d) as char
    } else {
        (55 + d) as char
    }
}

/// Hex rendering of `v`, at least `min` digits, zero-padded, never truncated:
/// exactly how registry key names and layout ids are written.
pub open spec fn spec_hex(v: nat, min: nat, upper: bool) -> Seq<char>
    decreases v, min,
{
    let d = (v % 16) as int;
    let c = if upper {
        hex_char_upper(d)
    } else {
        hex_char_lower(d)
    };
    if v < 16 && min <= 1 {
        seq![c]
    } else {
        spec_hex(v / 16, if min == 0 { 0 } else { (min - 1) as nat }, upper).push(c)
    }
}

/// Value of a sequence of hex digit characters, most significant first.
pub open spec fn spec_hex_val(s: Seq<char>) -> int
    decreases s.len(),
{
    if s.len() == 0 {
        0
    } else {
        spec_hex_val(s.drop_last()) * 16 + hex_char_val(s.last())
    }
}

pub open spec fn all_hex(s: Seq<char>) -> bool {
    forall|i: int| 0 <= i < s.len() ==> is_hex_char(#[trigger] s[i])
}

pub open spec fn pow16(n: nat) -> nat
    decreases n,
{
    if n == 0 {
        1
    } else {
        16 * pow16((n - 1) as nat)
    }
}

// ---------------------------------------------------------------------------
// Hex digits: proofs
// ---------------------------------------------------------------------------

/// The powers of sixteen the four- and eight-digit forms need.
pub proof fn lemma_pow16_values()
    ensures
        pow16(0) == 1,
        pow16(1) == 16,
        pow16(4) == 0x10000,
        pow16(7) == 0x10000000,
        pow16(8) == 0x100000000,
{
    reveal_with_fuel(pow16, 9);
}

/// A value below `16^n` renders to exactly `n` hex digits, all of which are
/// hex characters, and reading them back yields the value again.
pub proof fn lemma_hex_roundtrip(v: nat, n: nat, upper: bool)
    requires
        n >= 1,
        v < pow16(n),
    ensures
        spec_hex(v, n, upper).len() == n,
        all_hex(spec_hex(v, n, upper)),
        spec_hex_val(spec_hex(v, n, upper)) == v,
    decreases n,
{
    let s = spec_hex(v, n, upper);
    let d = (v % 16) as int;
    let c = if upper {
        hex_char_upper(d)
    } else {
        hex_char_lower(d)
    };
    assert(0 <= d < 16);
    assert(hex_char_val(c) == d) by {
        if d < 10 {
            assert(c as int == 48 + d);
        } else if upper {
            assert(c as int == 55 + d);
        } else {
            assert(c as int == 87 + d);
        }
    };
    if v < 16 && n <= 1 {
        assert(s =~= seq![c]);
        assert(s.drop_last() =~= Seq::<char>::empty());
        assert(spec_hex_val(Seq::<char>::empty()) == 0);
        assert(spec_hex_val(s) == 0 * 16 + hex_char_val(s.last()));
    } else {
        assert(n >= 2) by {
            if n < 2 {
                assert(n == 1 && v >= 16);
                lemma_pow16_values();
            }
        };
        let rest = spec_hex(v / 16, (n - 1) as nat, upper);
        assert(v / 16 < pow16((n - 1) as nat)) by {
            assert(pow16(n) == 16 * pow16((n - 1) as nat));
        };
        lemma_hex_roundtrip(v / 16, (n - 1) as nat, upper);
        assert(s =~= rest.push(c));
        assert(s.drop_last() =~= rest);
        assert(s.last() == c);
        assert(spec_hex_val(s) == (v / 16) * 16 + d);
        assert((v / 16) * 16 + (v % 16) == v) by (nonlinear_arith);
        assert(forall|i: int| 0 <= i < s.len() ==> is_hex_char(#[trigger] s[i])) by {
            assert(forall|i: int|
                0 <= i < rest.len() ==> s[i] == #[trigger] rest[i]);
        };
    }
}

// ---------------------------------------------------------------------------
// Hex digits: executable
// ---------------------------------------------------------------------------

/// Appends the hex digit character for `d` to `s`.
fn push_hex_char(s: &mut String, d: u8, upper: bool)
    requires
        d < 16,
    ensures
        !upper ==> final(s)@ == old(s)@.push(hex_char_lower(d as int)),
        upper ==> final(s)@ == old(s)@.push(hex_char_upper(d as int)),
{
    let lit: &str = if upper {
        match d {
            0 => "0", 1 => "1", 2 => "2", 3 => "3",
            4 => "4", 5 => "5", 6 => "6", 7 => "7",
            8 => "8", 9 => "9", 10 => "A", 11 => "B",
            12 => "C", 13 => "D", 14 => "E", _ => "F",
        }
    } else {
        match d {
            0 => "0", 1 => "1", 2 => "2", 3 => "3",
            4 => "4", 5 => "5", 6 => "6", 7 => "7",
            8 => "8", 9 => "9", 10 => "a", 11 => "b",
            12 => "c", 13 => "d", 14 => "e", _ => "f",
        }
    };
    proof {
        reveal_strlit("0"); reveal_strlit("1"); reveal_strlit("2");
        reveal_strlit("3"); reveal_strlit("4"); reveal_strlit("5");
        reveal_strlit("6"); reveal_strlit("7"); reveal_strlit("8");
        reveal_strlit("9"); reveal_strlit("a"); reveal_strlit("b");
        reveal_strlit("c"); reveal_strlit("d"); reveal_strlit("e");
        reveal_strlit("f"); reveal_strlit("A"); reveal_strlit("B");
        reveal_strlit("C"); reveal_strlit("D"); reveal_strlit("E");
        reveal_strlit("F");
    }
    s.append(lit);
    proof {
        if upper {
            assert(lit@ =~= seq![hex_char_upper(d as int)]);
            assert(old(s)@ + lit@ =~= old(s)@.push(hex_char_upper(d as int)));
        } else {
            assert(lit@ =~= seq![hex_char_lower(d as int)]);
            assert(old(s)@ + lit@ =~= old(s)@.push(hex_char_lower(d as int)));
        }
    }
}

/// Renders `v` in hex with at least `min` digits, zero-padded.
pub fn hex_string(v: u32, min: usize, upper: bool) -> (r: String)
    ensures
        r@ == spec_hex(v as nat, min as nat, upper),
    decreases v, min,
{
    if v < 16 && min <= 1 {
        let mut s = String::new();
        push_hex_char(&mut s, (v % 16) as u8, upper);
        proof {
            assert(s@ =~= spec_hex(v as nat, min as nat, upper));
        }
        s
    } else {
        let rest: usize = if min == 0 { 0 } else { min - 1 };
        let mut s = hex_string(v / 16, rest, upper);
        push_hex_char(&mut s, (v % 16) as u8, upper);
        s
    }
}

// ---------------------------------------------------------------------------
// The canonical textual form of an item
// ---------------------------------------------------------------------------

/// Canonical text of one item: four uppercase hex digits, a colon, then
/// eight uppercase hex digits.
pub open spec fn item_text(it: InputListItem) -> Seq<char> {
    spec_hex(it.lang_id as nat, 4, true) + seq![':'] + spec_hex(it.tip_id as nat, 8, true)
}

/// What a piece of text parses to: `Some` exactly for the well-formed form
/// (thirteen characters, a colon in the middle, hex digits elsewhere, in
/// either case).
pub open spec fn spec_parse_item(s: Seq<char>) -> Option<InputListItem> {
    if s.len() == 13 && s[4] == ':' && all_hex(s.subrange(0, 4)) && all_hex(s.subrange(5, 13)) {
        Some(InputListItem {
            lang_id: spec_hex_val(s.subrange(0, 4)) as u16,
            tip_id: spec_hex_val(s.subrange(5, 13)) as u32,
        })
    } else {
        None
    }
}

/// Reads hex digit characters `from..to` of `s`, or `None` when one of them
/// is not a hex digit.
fn parse_hex_range(s: &str, from: usize, to: usize) -> (r: Option<u32>)
    requires
        from <= to <= s@.len(),
        to - from <= 8,
    ensures
        all_hex(s@.subrange(from as int, to as int)) ==> (r matches Some(v) && v
            == spec_hex_val(s@.subrange(from as int, to as int)) && v < pow16(
            (to - from) as nat,
        )),
        !all_hex(s@.subrange(from as int, to as int)) ==> r is None,
        r is Some ==> all_hex(s@.subrange(from as int, to as int)),
{
    let ghost whole = s@.subrange(from as int, to as int);
    let mut acc: u32 = 0;
    let mut i: usize = from;
    proof {
        assert(whole.subrange(0, 0) =~= Seq::<char>::empty());
        lemma_pow16_values();
    }
    while i < to
        invariant
            from <= i <= to <= s@.len(),
            to - from <= 8,
            whole == s@.subrange(from as int, to as int),
            all_hex(whole.subrange(0, i - from)),
            acc == spec_hex_val(whole.subrange(0, i - from)),
            acc < pow16((i - from) as nat),
            pow16((i - from) as nat) <= pow16(8),
            pow16(8) == 0x100000000,
        decreases to - i,
    {
        let c = s.get_char(i);
        proof {
            assert(whole[i - from] == s@[i as int]);
        }
        let n = c as u32;
        let d: u32 = if 48 <= n && n <= 57 {
            n - 48
        } else if 97 <= n && n <= 102 {
            n - 87
        } else if 65 <= n && n <= 70 {
            n - 55
        } else {
            proof {
                assert(!is_hex_char(whole[i - from]));
            }
            return None;
        };
        proof {
            assert(d == hex_char_val(whole[i - from]));
            assert(pow16(((i + 1) - from) as nat) == 16 * pow16((i - from) as nat));
            assert(acc * 16 + d < 16 * pow16((i - from) as nat)) by (nonlinear_arith)
                requires acc < pow16((i - from) as nat), d < 16;
            assert(16 * pow16((i - from) as nat) <= 16 * pow16(7)) by {
                lemma_pow16_le((i - from) as nat, 7);
            };
        }
        acc = acc * 16 + d;
        i = i + 1;
        proof {
            let pref = whole.subrange(0, i - from);
            assert(pref.drop_last() =~= whole.subrange(0, i - 1 - from));
            assert(pref.last() == whole[i - 1 - from]);
        }
    }
    proof {
        assert(whole.subrange(0, to - from) =~= whole);
    }
    Some(acc)
}

proof fn lemma_pow16_le(a: nat, b: nat)
    requires
        a <= b,
    ensures
        pow16(a) <= pow16(b),
    decreases b,
{
    if a < b {
        lemma_pow16_le(a, (b - 1) as nat);
        assert(pow16(b) == 16 * pow16((b - 1) as nat));
    }
}

impl InputListItem {
    /// Parses the canonical `XXXX:YYYYYYYY` form, in either case. Anything of
    /// the wrong length, with a misplaced separator or a non-hex digit is
    /// rejected.
    pub fn parse(s: &str) -> (r: Option<InputListItem>)
        ensures
            r == spec_parse_item(s@),
    {
        let n = s.unicode_len();
        if n != 13 {
            return None;
        }
        if s.get_char(4) != ':' {
            return None;
        }
        let lang = match parse_hex_range(s, 0, 4) {
            Some(v) => v,
            None => {
                return None;
            },
        };
        let tip = match parse_hex_range(s, 5, 13) {
            Some(v) => v,
            None => {
                return None;
            },
        };
        proof {
            lemma_pow16_values();
        }
        Some(InputListItem { lang_id: lang as u16, tip_id: tip })
    }

    /// The canonical text of this item.
    pub fn to_text(&self) -> (r: String)
        ensures
            r@ == item_text(*self),
    {
        let mut s = hex_string(self.lang_id as u32, 4, true);
        proof {
            reveal_strlit(":");
        }
        s.append(":");
        let tip = hex_string(self.tip_id, 8, true);
        let r = s.concat(tip.as_str());
        proof {
            assert(":"@ =~= seq![':']);
            assert(r@ =~= item_text(*self));
        }
        r
    }

    /// The four uppercase hex digits of the locale identifier.
    pub fn lcid(&self) -> (r: String)
        ensures
            r@ == spec_hex(self.lang_id as nat, 4, true),
    {
        hex_string(self.lang_id as u32, 4, true)
    }

    /// The eight uppercase hex digits of the keyboard identifier.
    pub fn kbid(&self) -> (r: String)
        ensures
            r@ == spec_hex(self.tip_id as nat, 8, true),
    {
        hex_string(self.tip_id, 8, true)
    }
}

/// Formatting an item and parsing the text back yields the item again.
pub proof fn lemma_item_roundtrip(it: InputListItem)
    ensures
        spec_parse_item(item_text(it)) == Some(it),
{
    let s = item_text(it);
    let hi = spec_hex(it.lang_id as nat, 4, true);
    let lo = spec_hex(it.tip_id as nat, 8, true);
    lemma_pow16_values();
    lemma_hex_roundtrip(it.lang_id as nat, 4, true);
    lemma_hex_roundtrip(it.tip_id as nat, 8, true);
    assert(s.len() == 13);
    assert(s.subrange(0, 4) =~= hi);
    assert(s[4] == ':');
    assert(s.subrange(5, 13) =~= lo);
}

impl InputList {
    pub fn inner_mut(&mut self) -> (r: &mut Vec<InputListItem>)
        ensures
            r@ == old(self)@,
            final(self)@ == final(r)@,
    {
        &mut self.items
    }

    pub fn inner(&self) -> (r: &Vec<InputListItem>)
        ensures
            r@ == self@,
    {
        &self.items
    }

    pub fn into_inner(self) -> (r: Vec<InputListItem>)
        ensures
            r@ == self@,
    {
        self.items
    }

    pub fn from_items(items: Vec<InputListItem>) -> (r: InputList)
        ensures
            r@ == items@,
    {
        InputList { items }
    }

    /// Parses each piece of text in turn; the whole list parses only when
    /// every piece does.
    pub fn parse_all(texts: &Vec<String>) -> (r: Option<InputList>)
        ensures
            (forall|i: int|
                0 <= i < texts@.len() ==> spec_parse_item(#[trigger] texts@[i]@) is Some) ==> (r
                matches Some(l) && l@ == Seq::new(
                texts@.len(),
                |i: int| spec_parse_item(texts@[i]@)->0,
            )),
            r is Some ==> forall|i: int|
                0 <= i < texts@.len() ==> spec_parse_item(#[trigger] texts@[i]@) is Some,
    {
        let mut items: Vec<InputListItem> = Vec::new();
        let mut i: usize = 0;
        while i < texts.len()
            invariant
                0 <= i <= texts@.len(),
                items@.len() == i,
                forall|j: int| 0 <= j < i ==> spec_parse_item(#[trigger] texts@[j]@) is Some,
                forall|j: int| 0 <= j < i ==> items@[j] == spec_parse_item(#[trigger] texts@[j]@)->0,
            decreases texts@.len() - i,
        {
            match InputListItem::parse(texts[i].as_str()) {
                Some(it) => {
                    items.push(it);
                },
                None => {
                    return None;
                },
            }
            i = i + 1;
        }
        proof {
            assert(items@ =~= Seq::new(texts@.len(), |i: int| spec_parse_item(texts@[i]@)->0));
        }
        Some(InputList { items })
    }

    /// The semicolon-joined canonical text of the whole list.
    pub fn to_text(&self) -> (r: String)
        ensures
            r@ == spec_join_items(self@),
    {
        let mut s = String::new();
        let mut i: usize = 0;
        proof {
            reveal_strlit(";");
        }
        while i < self.items.len()
            invariant
                0 <= i <= self.items@.len(),
                s@ == spec_join_items(self.items@.take(i as int)),
                ";"@ =~= seq![';'],
            decreases self.items@.len() - i,
        {
            if i > 0 {
                s.append(";");
            }
            let t = self.items[i].to_text();
            s.append(t.as_str());
            i = i + 1;
            proof {
                let pref = self.items@.take(i as int);
                assert(pref.drop_last() =~= self.items@.take(i - 1));
                assert(pref.last() == self.items@[i - 1]);
            }
        }
        proof {
            assert(self.items@.take(self.items@.len() as int) =~= self.items@);
        }
        s
    }
}

/// The canonical texts of a list of items, one per item.
pub open spec fn spec_texts_of(items: Seq<InputListItem>) -> Seq<Seq<char>> {
    items.map_values(|it: InputListItem| item_text(it))
}

pub proof fn lemma_texts_of_push(items: Seq<InputListItem>, it: InputListItem)
    ensures
        spec_texts_of(items.push(it)) == spec_texts_of(items).push(item_text(it)),
{
    assert forall|j: int|
        0 <= j < items.len() + 1 implies spec_texts_of(items.push(it))[j] == spec_texts_of(
        items,
    ).push(item_text(it))[j] by {
        if j < items.len() {
            assert(items.push(it)[j] == items[j]);
        } else {
            assert(items.push(it)[j] == it);
        }
    }
    assert(spec_texts_of(items.push(it)) =~= spec_texts_of(items).push(item_text(it)));
}

/// Semicolon-joined canonical text of a list of items.
pub open spec fn spec_join_items(items: Seq<InputListItem>) -> Seq<char>
    decreases items.len(),
{
    if items.len() == 0 {
        Seq::empty()
    } else if items.len() == 1 {
        item_text(items[0])
    } else {
        spec_join_items(items.drop_last()) + seq![';'] + item_text(items.last())
    }
}

} // verus!
