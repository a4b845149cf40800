//! The textual forms of a 128-bit identifier: what each form is worth, the
//! canonical form of a value, and the calls that read and write them.

use vstd::arithmetic::div_mod::lemma_mod_breakdown;
use vstd::arithmetic::div_mod::lemma_small_mod;
use vstd::arithmetic::power::lemma_pow1;
use vstd::arithmetic::power::lemma_pow_adds;
use vstd::arithmetic::power::lemma_pow_positive;
use vstd::arithmetic::power::pow;
use vstd::prelude::*;

verus! {

/// Whether `c` is a hexadecimal digit, in either case.
pub open spec fn is_hex_digit(c: char) -> bool {
    ('0' <= c <= '9') || ('a' <= c <= 'f') || ('A' <= c <= 'F')
}

/// The number that the hexadecimal digit `c` stands for.
pub open spec fn hex_digit_value(c: char) -> int {
    if '0' <= c <= '9' {
        c as int - '0' as int
    } else if 'a' <= c <= 'f' {
        c as int - 'a' as int + 10
    } else {
        c as int - 'A' as int + 10
    }
}

/// The lower-case hexadecimal digit that stands for `d`, for `d` below 16.
pub open spec fn hex_char(d: int) -> char {
    if d == 0 {
        '0'
    } else if d == 1 {
        '1'
    } else if d == 2 {
        '2'
    } else if d == 3 {
        '3'
    } else if d == 4 {
        '4'
    } else if d == 5 {
        '5'
    } else if d == 6 {
        '6'
    } else if d == 7 {
        '7'
    } else if d == 8 {
        '8'
    } else if d == 9 {
        '9'
    } else if d == 10 {
        'a'
    } else if d == 11 {
        'b'
    } else if d == 12 {
        'c'
    } else if d == 13 {
        'd'
    } else if d == 14 {
        'e'
    } else {
        'f'
    }
}

/// Whether every character of `s` is a hexadecimal digit.
pub open spec fn all_hex(s: Seq<char>) -> bool {
    forall|i: int| 0 <= i < s.len() ==> is_hex_digit(#[trigger] s[i])
}

/// The number that the hexadecimal digits of `s` spell, most significant
/// first.
pub open spec fn hex_value(s: Seq<char>) -> int
    decreases s.len(),
{
    if s.len() == 0 {
        0
    } else {
        hex_value(s.drop_last()) * 16 + hex_digit_value(s.last())
    }
}

/// The `n` lowest hexadecimal digits of `v`, most significant first, in
/// lower case.
pub open spec fn hex_text(v: int, n: nat) -> Seq<char>
    decreases n,
{
    if n == 0 {
        Seq::empty()
    } else {
        hex_text(v / 16, (n - 1) as nat).push(hex_char(v % 16))
    }
}

/// 32 digits set in groups of 8, 4, 4, 4 and 12 with a hyphen between two
/// groups.
pub open spec fn grouped(d: Seq<char>) -> Seq<char> {
    d.subrange(0, 8) + seq!['-'] + d.subrange(8, 12) + seq!['-'] + d.subrange(12, 16) + seq!['-']
        + d.subrange(16, 20) + seq!['-'] + d.subrange(20, 32)
}

/// Whether `s` has 36 characters with a hyphen in each of the four places
/// where the grouped form has one.
pub open spec fn is_grouped(s: Seq<char>) -> bool {
    s.len() == 36 && s[8] == '-' && s[13] == '-' && s[18] == '-' && s[23] == '-'
}

/// The 32 characters of a grouped form that are not its hyphens.
pub open spec fn ungrouped(s: Seq<char>) -> Seq<char> {
    s.subrange(0, 8) + s.subrange(9, 13) + s.subrange(14, 18) + s.subrange(19, 23) + s.subrange(
        24,
        36,
    )
}

/// What 32 hexadecimal digits without hyphens are worth.
pub open spec fn simple_value(s: Seq<char>) -> Option<u128> {
    if s.len() == 32 && all_hex(s) {
        Some(hex_value(s) as u128)
    } else {
        None
    }
}

/// What the grouped form is worth.
pub open spec fn hyphenated_value(s: Seq<char>) -> Option<u128> {
    if is_grouped(s) && all_hex(ungrouped(s)) {
        Some(hex_value(ungrouped(s)) as u128)
    } else {
        None
    }
}

/// Whether `p` is `urn:uuid:`, its letters in either case.
pub open spec fn is_urn_prefix(p: Seq<char>) -> bool {
    &&& p.len() == 9
    &&& (p[0] == 'u' || p[0] == 'U')
    &&& (p[1] == 'r' || p[1] == 'R')
    &&& (p[2] == 'n' || p[2] == 'N')
    &&& p[3] == ':'
    &&& (p[4] == 'u' || p[4] == 'U')
    &&& (p[5] == 'u' || p[5] == 'U')
    &&& (p[6] == 'i' || p[6] == 'I')
    &&& (p[7] == 'd' || p[7] == 'D')
    &&& p[8] == ':'
}

/// The value that a text stands for, if it is one of the four accepted
/// forms: 32 digits, the grouped form, the grouped form in braces, or the
/// grouped form after `urn:uuid:`.
pub open spec fn text_value(s: Seq<char>) -> Option<u128> {
    if s.len() == 32 {
        simple_value(s)
    } else if s.len() == 36 {
        hyphenated_value(s)
    } else if s.len() == 38 && s[0] == '{' && s[37] == '}' {
        hyphenated_value(s.subrange(1, 37))
    } else if s.len() == 45 && is_urn_prefix(s.subrange(0, 9)) {
        hyphenated_value(s.subrange(9, 45))
    } else {
        None
    }
}

/// The canonical form of `v`: grouped, in lower case.
pub open spec fn canonical_text(v: u128) -> Seq<char> {
    grouped(hex_text(v as int, 32))
}

/// `uuid::Uuid::parse_str`, with the value taken by `as_u128`. The parser
/// accepts exactly the four forms of `text_value`, matched by length in
/// bytes; each accepted form holds ASCII only, so bytes and characters agree.
/// The value is the digits read as one big-endian number.
#[verifier::external_body]
pub(crate) fn parse_uuid(s: &str) -> (r: Option<u128>)
    ensures
        r == text_value(s@),
{
    match uuid::Uuid::parse_str(s) {
        Ok(id) => Some(id.as_u128()),
        Err(_) => None,
    }
}

/// `to_string` of `uuid::Uuid`, on the value given by `from_u128`: the
/// grouped form in lower case, digits in big-endian order.
#[verifier::external_body]
pub(crate) fn uuid_string(v: u128) -> (r: String)
    ensures
        r@ == canonical_text(v),
{
    uuid::Uuid::from_u128(v).to_string()
}

/// The digits written for a value are `n` hexadecimal digits.
pub proof fn lemma_hex_text_digits(v: int, n: nat)
    requires
        0 <= v,
    ensures
        hex_text(v, n).len() == n,
        all_hex(hex_text(v, n)),
    decreases n,
{
    if n > 0 {
        lemma_hex_text_digits(v / 16, (n - 1) as nat);
        let t = hex_text(v, n);
        assert forall|i: int| 0 <= i < t.len() implies is_hex_digit(#[trigger] t[i]) by {
            if i < n - 1 {
                assert(t[i] == hex_text(v / 16, (n - 1) as nat)[i]);
            }
        }
    }
}

/// Reading the `n` digits written for `v` gives `v` modulo `16^n`.
pub proof fn lemma_hex_text_value(v: int, n: nat)
    requires
        0 <= v,
    ensures
        hex_value(hex_text(v, n)) == v % pow(16, n),
    decreases n,
{
    reveal(pow);
    if n == 0 {
        assert(hex_text(v, 0).len() == 0);
    } else {
        let m = (n - 1) as nat;
        lemma_hex_text_value(v / 16, m);
        lemma_pow_positive(16, m);
        lemma_mod_breakdown(v, 16, pow(16, m));
        let t = hex_text(v, n);
        assert(t.drop_last() == hex_text(v / 16, m));
        assert(t.last() == hex_char(v % 16));
        assert(hex_digit_value(hex_char(v % 16)) == v % 16);
        assert(pow(16, n) == 16 * pow(16, m));
    }
}

/// `16^32` is `2^128`.
pub proof fn lemma_pow16_32()
    ensures
        pow(16, 32) == 0x1_0000_0000_0000_0000_0000_0000_0000_0000,
{
    lemma_pow1(16);
    lemma_pow_adds(16, 1, 1);
    assert(pow(16, 2) == 0x100);
    lemma_pow_adds(16, 2, 2);
    assert(pow(16, 4) == 0x1_0000);
    lemma_pow_adds(16, 4, 4);
    assert(pow(16, 8) == 0x1_0000_0000);
    lemma_pow_adds(16, 8, 8);
    assert(pow(16, 16) == 0x1_0000_0000_0000_0000);
    lemma_pow_adds(16, 16, 16);
}

/// Taking the hyphens out of a grouped form gives the digits back.
pub proof fn lemma_ungrouped_grouped(d: Seq<char>)
    requires
        d.len() == 32,
    ensures
        is_grouped(grouped(d)),
        ungrouped(grouped(d)) == d,
{
    let g = grouped(d);
    assert(g.len() == 36);
    assert(ungrouped(g) =~= d);
}

/// Reading the canonical form of a value gives the value back.
pub proof fn lemma_canonical_text_value(v: u128)
    ensures
        canonical_text(v).len() == 36,
        text_value(canonical_text(v)) == Some(v),
{
    let d = hex_text(v as int, 32);
    lemma_hex_text_digits(v as int, 32);
    lemma_hex_text_value(v as int, 32);
    lemma_pow16_32();
    lemma_small_mod(v as nat, pow(16, 32) as nat);
    lemma_ungrouped_grouped(d);
}

} // verus!
