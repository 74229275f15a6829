//! Minting node ids, and their short form.

use vstd::prelude::*;

use crate::graph::NodeId;
use crate::text::Text;


verus! {

// ── the short form ─────────────────────────────────────────────────────────

/// The first eight bytes of the id as text, or all of it where they are not
/// whole characters.
pub open spec fn short_text(id: Text) -> Text {
    let bytes = vstd::utf8::encode_utf8(id);
    if vstd::utf8::is_char_boundary(bytes, 8) {
        vstd::utf8::decode_utf8(bytes.subrange(0, 8))
    } else {
        id
    }
}

impl NodeId {
    /// The first eight characters, for compact display. Only for display:
    /// equality and lookups use the whole id.
    pub fn short(&self) -> (short: &str)
        ensures
            short@ == short_text(self@),
    {
        let whole = self.0.as_str();
        if whole.is_char_boundary(8) {
            let short = whole.split_at(8).0;
            proof {
                vstd::utf8::encode_utf8_decode_utf8(short@);
            }
            short
        } else {
            whole
        }
    }
}

// ── the form of an id ──────────────────────────────────────────────────────

/// The character of a hexadecimal digit.
pub open spec fn hex_char(digit: nat) -> char {
    if digit < 10 {
        crate::text::digit_char(digit)
    } else if digit == 10 {
        'a'
    } else if digit == 11 {
        'b'
    } else if digit == 12 {
        'c'
    } else if digit == 13 {
        'd'
    } else if digit == 14 {
        'e'
    } else {
        'f'
    }
}

/// A lower-case hexadecimal digit.
pub open spec fn is_hex(c: char) -> bool {
    exists|d: nat| d < 16 && c == #[trigger] hex_char(d)
}

/// The positions of the hyphens.
pub open spec fn is_hyphen_position(i: int) -> bool {
    i == 8 || i == 13 || i == 18 || i == 23
}

/// The form of a random identifier: groups of hexadecimal digits with hyphens
/// between, the version digit and the variant digit in their places.
pub open spec fn is_v4_text(t: Text) -> bool {
    &&& t.len() == 36
    &&& forall|i: int|
        0 <= i < 36 ==> if is_hyphen_position(i) {
            #[trigger] t[i] == '-'
        } else {
            is_hex(t[i])
        }
    &&& t[14] == '4'
    &&& (t[19] == '8' || t[19] == '9' || t[19] == 'a' || t[19] == 'b')
}

/// Mints a fresh, random id with `uuid::Uuid::new_v4`, written by its
/// `Display` as lower-case hexadecimal digits with hyphens. Claimed: only the
/// form of the text. That no id is minted twice is a matter of chance and is
/// not claimed.
#[verifier::external_body]
pub(crate) fn new_node_id() -> (id: NodeId)
    ensures
        is_v4_text(id@),
{
    NodeId(uuid::Uuid::new_v4().to_string())
}

/// Mints `count` fresh ids.
pub(crate) fn mint_ids(count: usize) -> (ids: Vec<NodeId>)
    ensures
        ids@.len() == count,
        forall|i: int| 0 <= i < count ==> is_v4_text((#[trigger] ids@[i])@),
{
    let mut ids: Vec<NodeId> = Vec::new();
    while ids.len() < count
        invariant
            ids@.len() <= count,
            forall|i: int| 0 <= i < ids@.len() ==> is_v4_text((#[trigger] ids@[i])@),
        decreases count - ids.len(),
    {
        ids.push(new_node_id());
    }
    ids
}

// ── derived ids ────────────────────────────────────────────────────────────

/// Sixteen to the power `e`.
pub open spec fn sixteen_pow(e: nat) -> nat
    decreases e,
{
    if e == 0 {
        1
    } else {
        16 * sixteen_pow((e - 1) as nat)
    }
}

/// The hexadecimal digit of `value` at place `e`, counted from the lowest.
pub open spec fn hex_digit(value: nat, e: nat) -> nat {
    (value / sixteen_pow(e)) % 16
}

/// The digit that stands at place `e` once version and variant are set.
pub open spec fn v4_digit(value: nat, e: nat) -> nat {
    if e == 19 {
        4
    } else if e == 15 {
        8 + hex_digit(value, e) % 4
    } else {
        hex_digit(value, e)
    }
}

/// The place of the digit at position `i` of the text.
pub open spec fn digit_place(i: int) -> nat {
    if i < 8 {
        (31 - i) as nat
    } else if i < 13 {
        (32 - i) as nat
    } else if i < 18 {
        (33 - i) as nat
    } else if i < 23 {
        (34 - i) as nat
    } else {
        (35 - i) as nat
    }
}

/// The text of the identifier with the given bits, but for version and
/// variant.
pub open spec fn v4_text(value: nat) -> Text {
    Seq::new(
        36,
        |i: int|
            if is_hyphen_position(i) {
                '-'
            } else {
                hex_char(v4_digit(value, digit_place(i)))
            },
    )
}

/// Formats 128 bits as an identifier with `uuid::Builder::from_random_bytes`,
/// which sets the version and variant bits, and `Uuid`'s `Display`. Claimed:
/// the text is the hexadecimal digits of the bits from the highest to the
/// lowest, grouped by hyphens, with the version digit 4 and the variant digit
/// between 8 and b.
#[verifier::external_body]
fn v4_text_of(bits: u128) -> (out: String)
    ensures
        out@ == v4_text(bits as nat),
{
    uuid::Builder::from_random_bytes(bits.to_be_bytes()).into_uuid().to_string()
}

/// The bits of the id derived from a seed and a counter.
pub open spec fn derived_bits(seed: u128, counter: u64) -> nat {
    ((seed + counter) % (u128::MAX + 1)) as nat
}

/// Derives an id from a seed and a counter, always the same one.
pub fn derive_node_id(seed: u128, counter: u64) -> (id: NodeId)
    ensures
        id@ == v4_text(derived_bits(seed, counter)),
        is_v4_text(id@),
{
    let bits: u128 = seed.wrapping_add(counter as u128);
    let id = NodeId(v4_text_of(bits));
    proof {
        lemma_v4_text(bits as nat);
    }
    id
}

/// What a derived id keeps of the counter: everything below the bits of the
/// variant.
pub open spec fn counter_span() -> nat {
    4 * sixteen_pow(15)
}

proof fn lemma_hex_char_injective(a: nat, b: nat)
    requires
        a < 16,
        b < 16,
        hex_char(a) == hex_char(b),
    ensures
        a == b,
{
}

proof fn lemma_sixteen_pow_positive(e: nat)
    ensures
        sixteen_pow(e) > 0,
    decreases e,
{
    if e > 0 {
        lemma_sixteen_pow_positive((e - 1) as nat);
    }
}

/// Numbers with the same lowest `k` digits have the same remainder.
proof fn lemma_low_digits(a: nat, b: nat, k: nat)
    requires
        forall|e: nat| e < k ==> #[trigger] hex_digit(a, e) == hex_digit(b, e),
    ensures
        a % sixteen_pow(k) == b % sixteen_pow(k),
    decreases k,
{
    if k > 0 {
        let e = (k - 1) as nat;
        let p = sixteen_pow(e);
        lemma_low_digits(a, b, e);
        lemma_sixteen_pow_positive(e);
        assert(hex_digit(a, e) == hex_digit(b, e));
        vstd::arithmetic::div_mod::lemma_mod_breakdown(a as int, p as int, 16);
        vstd::arithmetic::div_mod::lemma_mod_breakdown(b as int, p as int, 16);
        assert(p * 16 == sixteen_pow(k)) by (nonlinear_arith)
            requires
                sixteen_pow(k) == 16 * p,
        ;
    } else {
        assert(sixteen_pow(0) == 1);
    }
}

/// The place of a digit below the variant has a position in the text.
proof fn lemma_same_low_digit(a: nat, b: nat, e: nat)
    requires
        v4_text(a) == v4_text(b),
        e < 15,
    ensures
        hex_digit(a, e) == hex_digit(b, e),
{
    let i: int = if e < 12 {
        35 - e
    } else {
        34 - e
    };
    assert(digit_place(i) == e);
    assert(!is_hyphen_position(i));
    assert(v4_text(a)[i] == hex_char(v4_digit(a, e)));
    assert(v4_text(b)[i] == hex_char(v4_digit(b, e)));
    lemma_hex_char_injective(v4_digit(a, e), v4_digit(b, e));
}

/// Different counters give different ids for the same seed. The bits that
/// hold version and variant do not count, so this is said of counters that
/// differ below them.
pub proof fn law_derived_ids_differ(seed: u128, first: u64, second: u64)
    requires
        (first as nat) % counter_span() != (second as nat) % counter_span(),
    ensures
        v4_text(derived_bits(seed, first)) != v4_text(derived_bits(seed, second)),
{
    let a = derived_bits(seed, first);
    let b = derived_bits(seed, second);
    if v4_text(a) == v4_text(b) {
        assert forall|e: nat| e < 15 implies #[trigger] hex_digit(a, e) == hex_digit(b, e) by {
            lemma_same_low_digit(a, b, e);
        }
        lemma_low_digits(a, b, 15);
        assert(digit_place(19) == 15);
        assert(v4_text(a)[19] == hex_char(v4_digit(a, 15)));
        assert(v4_text(b)[19] == hex_char(v4_digit(b, 15)));
        lemma_hex_char_injective(v4_digit(a, 15), v4_digit(b, 15));
        lemma_same_remainder(seed, first, second);
    }
}

proof fn lemma_same_remainder(seed: u128, first: u64, second: u64)
    requires
        derived_bits(seed, first) % sixteen_pow(15) == derived_bits(seed, second) % sixteen_pow(15),
        hex_digit(derived_bits(seed, first), 15) % 4 == hex_digit(derived_bits(seed, second), 15) % 4,
    ensures
        (first as nat) % counter_span() == (second as nat) % counter_span(),
{
    let a = derived_bits(seed, first);
    let b = derived_bits(seed, second);
    assert(sixteen_pow(15) == 0x1000_0000_0000_0000) by {
        reveal_with_fuel(sixteen_pow, 16);
    }
    lemma_low_bits(a, b);
    lemma_wraps_evenly((seed + first) as nat);
    lemma_wraps_evenly((seed + second) as nat);
    lemma_sum_remainder(seed as nat, first as nat, second as nat);
}

proof fn lemma_low_bits(a: nat, b: nat)
    requires
        a % 0x1000_0000_0000_0000nat == b % 0x1000_0000_0000_0000nat,
        ((a / 0x1000_0000_0000_0000nat) % 16) % 4 == ((b / 0x1000_0000_0000_0000nat) % 16) % 4,
    ensures
        a % 0x4000_0000_0000_0000nat == b % 0x4000_0000_0000_0000nat,
{
    vstd::arithmetic::div_mod::lemma_mod_breakdown(a as int, 0x1000_0000_0000_0000, 4);
    vstd::arithmetic::div_mod::lemma_mod_breakdown(b as int, 0x1000_0000_0000_0000, 4);
    vstd::arithmetic::div_mod::lemma_mod_mod(
        (a / 0x1000_0000_0000_0000nat) as int,
        4,
        4,
    );
    vstd::arithmetic::div_mod::lemma_mod_mod(
        (b / 0x1000_0000_0000_0000nat) as int,
        4,
        4,
    );
}

/// Wrapping at the width of an id changes nothing below.
proof fn lemma_wraps_evenly(x: nat)
    ensures
        (x % (u128::MAX + 1) as nat) % 0x4000_0000_0000_0000nat == x % 0x4000_0000_0000_0000nat,
{
    vstd::arithmetic::div_mod::lemma_mod_mod(
        x as int,
        0x4000_0000_0000_0000,
        0x4_0000_0000_0000_0000int,
    );
    assert(0x4000_0000_0000_0000 * 0x4_0000_0000_0000_0000int == u128::MAX + 1);
}

proof fn lemma_sum_remainder(seed: nat, first: nat, second: nat)
    requires
        (seed + first) % 0x4000_0000_0000_0000nat == (seed + second) % 0x4000_0000_0000_0000nat,
    ensures
        first % 0x4000_0000_0000_0000nat == second % 0x4000_0000_0000_0000nat,
{
}

/// The text of an identifier has the form of one.
pub proof fn lemma_v4_text(value: nat)
    ensures
        is_v4_text(v4_text(value)),
{
    let t = v4_text(value);
    assert forall|i: int| 0 <= i < 36 implies if is_hyphen_position(i) {
        #[trigger] t[i] == '-'
    } else {
        is_hex(t[i])
    } by {
        if !is_hyphen_position(i) {
            let d = v4_digit(value, digit_place(i));
            assert(d < 16);
            assert(t[i] == hex_char(d));
        }
    }
    let v = 8 + hex_digit(value, 15) % 4;
    assert(t[14] == hex_char(4));
    assert(t[19] == hex_char(v));
    assert(8 <= v < 12);
}

} // verus!
