//! Linking identifiers: 128-bit values written as hyphenated hexadecimal.
//! Reading, writing and drawing fresh ones are done by the uuid crate.

use uuid::Uuid;
use vstd::prelude::*;
use crate::text::{is_space, is_word};

verus! {

pub open spec fn is_hex(c: char) -> bool {
    let u = c as u32;
    ||| 0x30 <= u <= 0x39
    ||| 0x61 <= u <= 0x66
    ||| 0x41 <= u <= 0x46
}

pub open spec fn hex_digit_value(c: char) -> nat {
    let u = c as u32;
    if u <= 0x39 {
        (u - 0x30) as nat
    } else if u <= 0x46 {
        (u - 0x41 + 10) as nat
    } else {
        (u - 0x61 + 10) as nat
    }
}

/// The number that a string of hexadecimal digits denotes.
pub open spec fn hex_value(s: Seq<char>) -> nat
    decreases s.len(),
{
    if s.len() == 0 {
        0
    } else {
        hex_value(s.drop_last()) * 16 + hex_digit_value(s.last())
    }
}

pub open spec fn hex_char(d: nat) -> char {
    if d < 10 {
        (0x30 + d) as char
    } else {
        (0x61 + d - 10) as char
    }
}

/// The last `k` lower-case hexadecimal digits of `v`.
pub open spec fn hex_text(v: nat, k: nat) -> Seq<char>
    decreases k,
{
    if k == 0 {
        seq![]
    } else {
        hex_text(v / 16, (k - 1) as nat).push(hex_char(v % 16))
    }
}

pub open spec fn pow16(k: nat) -> nat
    decreases k,
{
    if k == 0 {
        1
    } else {
        16 * pow16((k - 1) as nat)
    }
}

/// Groups 32 digits as 8-4-4-4-12 with hyphens.
pub open spec fn hyphenate(h: Seq<char>) -> Seq<char> {
    h.subrange(0, 8) + seq!['-'] + h.subrange(8, 12) + seq!['-'] + h.subrange(12, 16) + seq!['-']
        + h.subrange(16, 20) + seq!['-'] + h.subrange(20, 32)
}

/// The hyphenated lower-case text of an identifier.
pub open spec fn id_text(v: u128) -> Seq<char> {
    hyphenate(hex_text(v as nat, 32))
}

/// 36 characters: hexadecimal digits with hyphens at 8, 13, 18 and 23.
pub open spec fn hyphenated_form(s: Seq<char>) -> bool {
    &&& s.len() == 36
    &&& forall|i: int|
        0 <= i < 36 ==> (if i == 8 || i == 13 || i == 18 || i == 23 {
            #[trigger] s[i] == '-'
        } else {
            is_hex(s[i])
        })
}

pub open spec fn unhyphenate(s: Seq<char>) -> Seq<char> {
    s.subrange(0, 8) + s.subrange(9, 13) + s.subrange(14, 18) + s.subrange(19, 23) + s.subrange(
        24,
        36,
    )
}

pub open spec fn hyphenated_value(s: Seq<char>) -> u128 {
    hex_value(unhyphenate(s)) as u128
}

/// What the uuid crate's `Uuid::parse_str` yields, as a 128-bit value.
pub uninterp spec fn uuid_parse(s: Seq<char>) -> Option<u128>;

/// The identifier that `s` denotes: stated exactly for the hyphenated form,
/// named for the other forms the uuid crate accepts.
pub open spec fn id_of(s: Seq<char>) -> Option<u128> {
    if hyphenated_form(s) {
        Some(hyphenated_value(s))
    } else {
        uuid_parse(s)
    }
}

proof fn lemma_hex_text(v: nat, k: nat)
    requires
        v < pow16(k),
    ensures
        hex_text(v, k).len() == k,
        hex_value(hex_text(v, k)) == v,
        forall|i: int| 0 <= i < k ==> is_hex(#[trigger] hex_text(v, k)[i]),
    decreases k,
{
    if k == 0 {
    } else {
        let p = pow16((k - 1) as nat);
        assert(v < 16 * p ==> v / 16 < p) by (nonlinear_arith);
        assert((v / 16) * 16 + v % 16 == v) by (nonlinear_arith);
        lemma_hex_text(v / 16, (k - 1) as nat);
        let h = hex_text(v, k);
        assert(h.drop_last() =~= hex_text(v / 16, (k - 1) as nat));
        assert(hex_digit_value(hex_char(v % 16)) == v % 16);
        assert forall|i: int| 0 <= i < k implies is_hex(#[trigger] h[i]) by {
            if i < k - 1 {
                assert(h[i] == hex_text(v / 16, (k - 1) as nat)[i]);
            }
        }
    }
}

/// An identifier's text is one word in the hyphenated form and reads back as itself.
pub proof fn lemma_id_text(v: u128)
    ensures
        hyphenated_form(id_text(v)),
        id_of(id_text(v)) == Some(v),
        is_word(id_text(v)),
{
    reveal_with_fuel(pow16, 33);
    assert(pow16(32) == 0x1_0000_0000_0000_0000_0000_0000_0000_0000nat);
    lemma_hex_text(v as nat, 32);
    let h = hex_text(v as nat, 32);
    let t = id_text(v);
    assert(unhyphenate(t) =~= h);
    assert forall|i: int| 0 <= i < 36 implies (if i == 8 || i == 13 || i == 18 || i == 23 {
        #[trigger] t[i] == '-'
    } else {
        is_hex(t[i])
    }) by {
        if i < 8 {
            assert(t[i] == h[i]);
        } else if 8 < i < 13 {
            assert(t[i] == h[i - 1]);
        } else if 13 < i < 18 {
            assert(t[i] == h[i - 2]);
        } else if 18 < i < 23 {
            assert(t[i] == h[i - 3]);
        } else if 23 < i {
            assert(t[i] == h[i - 4]);
        }
    }
    assert forall|i: int| 0 <= i < t.len() implies !is_space(#[trigger] t[i]) by {
        if i == 8 || i == 13 || i == 18 || i == 23 {
            assert(t[i] == '-');
        } else {
            assert(is_hex(t[i]));
        }
    }
}

/// Relies on the uuid crate's `Uuid::parse_str` and `Uuid::as_u128`: the
/// hyphenated form reads as its hexadecimal digits, most significant first.
#[verifier::external_body]
pub(crate) fn uuid_read(s: &str) -> (r: Option<u128>)
    ensures
        hyphenated_form(s@) ==> r == Some(hyphenated_value(s@)),
        !hyphenated_form(s@) ==> r == uuid_parse(s@),
{
    match Uuid::parse_str(s) {
        Ok(u) => Some(u.as_u128()),
        Err(_) => None,
    }
}

/// Relies on the uuid crate's `Display` for `Uuid`: the hyphenated
/// lower-case form of the value.
#[verifier::external_body]
pub(crate) fn uuid_write(v: u128) -> (r: String)
    ensures
        r@ == id_text(v),
{
    Uuid::from_u128(v).to_string()
}

/// Relies on the uuid crate's `Uuid::new_v4`: a random identifier.
#[verifier::external_body]
pub(crate) fn uuid_fresh() -> (r: u128) {
    Uuid::new_v4().as_u128()
}

} // verus!
