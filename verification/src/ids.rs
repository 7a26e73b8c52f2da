//! Identities. Every id is a UUID, held as its 128-bit value.

use vstd::prelude::*;

verus! {

/// One organisation.
#[derive(Debug, Clone, Copy, PartialEq, Eq, Structural, PartialOrd, Ord, Hash)]
pub struct OrgId(pub u128);

/// One user.
#[derive(Debug, Clone, Copy, PartialEq, Eq, Structural, PartialOrd, Ord, Hash)]
pub struct UserId(pub u128);

/// One status page.
#[derive(Debug, Clone, Copy, PartialEq, Eq, Structural, PartialOrd, Ord, Hash)]
pub struct StatusPageId(pub u128);

/// `uuid::Uuid::now_v7`: a fresh time-ordered id. Which one it is depends on the
/// clock and on chance.
#[verifier::external_body]
pub(crate) fn fresh_id() -> u128 {
    uuid::Uuid::now_v7().as_u128()
}

/// `uuid::Uuid::new_v4`: a fresh random id. Which one it is depends on chance.
#[verifier::external_body]
pub(crate) fn random_id() -> u128 {
    uuid::Uuid::new_v4().as_u128()
}

/// The lower-case hexadecimal digit of a value below sixteen.
pub open spec fn hex_digit(n: u128) -> char {
    if n == 0 {
        '0'
    } else if n == 1 {
        '1'
    } else if n == 2 {
        '2'
    } else if n == 3 {
        '3'
    } else if n == 4 {
        '4'
    } else if n == 5 {
        '5'
    } else if n == 6 {
        '6'
    } else if n == 7 {
        '7'
    } else if n == 8 {
        '8'
    } else if n == 9 {
        '9'
    } else if n == 10 {
        'a'
    } else if n == 11 {
        'b'
    } else if n == 12 {
        'c'
    } else if n == 13 {
        'd'
    } else if n == 14 {
        'e'
    } else {
        'f'
    }
}

/// The four bits of `id` that start `shift` bits from the right.
pub open spec fn nibble(id: u128, shift: u128) -> u128 {
    (id >> shift) & 0xf
}

/// How far from the right the four bits stand that position `i` of a UUID's text
/// shows.
pub open spec fn shift_at(i: int) -> u128 {
    (4 * (if i < 8 {
        31 - i
    } else if i < 13 {
        32 - i
    } else if i < 18 {
        33 - i
    } else if i < 23 {
        34 - i
    } else {
        35 - i
    })) as u128
}

/// A UUID's text: thirty-two lower-case hexadecimal digits in groups of eight,
/// four, four, four and twelve, with hyphens between.
pub open spec fn uuid_text(id: u128) -> Seq<char> {
    Seq::new(
        36,
        |i: int|
            if i == 8 || i == 13 || i == 18 || i == 23 {
                '-'
            } else {
                hex_digit(nibble(id, shift_at(i)))
            },
    )
}

/// `uuid::Uuid`'s `Display`: the hyphenated lower-case hexadecimal text of the
/// id.
#[verifier::external_body]
pub(crate) fn uuid_string(id: u128) -> (r: String)
    ensures
        r@ == uuid_text(id),
{
    uuid::Uuid::from_u128(id).to_string()
}

/// No UUID text starts with a letter past `f`.
pub proof fn lemma_uuid_text_start(id: u128)
    ensures
        uuid_text(id).len() == 36,
        '0' <= uuid_text(id)[0] <= '9' || 'a' <= uuid_text(id)[0] <= 'f',
{
}

proof fn lemma_hex_digit_injective(a: u128, b: u128)
    requires
        a <= 15,
        b <= 15,
        hex_digit(a) == hex_digit(b),
    ensures
        a == b,
{
}

proof fn lemma_same_nibble(a: u128, b: u128, i: int)
    requires
        uuid_text(a) == uuid_text(b),
        0 <= i < 36,
        i != 8 && i != 13 && i != 18 && i != 23,
    ensures
        nibble(a, shift_at(i)) == nibble(b, shift_at(i)),
{
    let x = nibble(a, shift_at(i));
    let y = nibble(b, shift_at(i));
    assert(uuid_text(a)[i] == hex_digit(x));
    assert(uuid_text(b)[i] == hex_digit(y));
    let p = a >> shift_at(i);
    let q = b >> shift_at(i);
    assert(p & 0xf <= 15) by (bit_vector);
    assert(q & 0xf <= 15) by (bit_vector);
    lemma_hex_digit_injective(x, y);
}

/// Different ids have different texts.
pub proof fn lemma_uuid_text_injective(a: u128, b: u128)
    requires
        uuid_text(a) == uuid_text(b),
    ensures
        a == b,
{
    lemma_same_nibble(a, b, 0);
    lemma_same_nibble(a, b, 1);
    lemma_same_nibble(a, b, 2);
    lemma_same_nibble(a, b, 3);
    lemma_same_nibble(a, b, 4);
    lemma_same_nibble(a, b, 5);
    lemma_same_nibble(a, b, 6);
    lemma_same_nibble(a, b, 7);
    lemma_same_nibble(a, b, 9);
    lemma_same_nibble(a, b, 10);
    lemma_same_nibble(a, b, 11);
    lemma_same_nibble(a, b, 12);
    lemma_same_nibble(a, b, 14);
    lemma_same_nibble(a, b, 15);
    lemma_same_nibble(a, b, 16);
    lemma_same_nibble(a, b, 17);
    lemma_same_nibble(a, b, 19);
    lemma_same_nibble(a, b, 20);
    lemma_same_nibble(a, b, 21);
    lemma_same_nibble(a, b, 22);
    lemma_same_nibble(a, b, 24);
    lemma_same_nibble(a, b, 25);
    lemma_same_nibble(a, b, 26);
    lemma_same_nibble(a, b, 27);
    lemma_same_nibble(a, b, 28);
    lemma_same_nibble(a, b, 29);
    lemma_same_nibble(a, b, 30);
    lemma_same_nibble(a, b, 31);
    lemma_same_nibble(a, b, 32);
    lemma_same_nibble(a, b, 33);
    lemma_same_nibble(a, b, 34);
    lemma_same_nibble(a, b, 35);
    assert(a == b) by (bit_vector)
        requires
            (a >> 0) & 0xf == (b >> 0) & 0xf,
            (a >> 4) & 0xf == (b >> 4) & 0xf,
            (a >> 8) & 0xf == (b >> 8) & 0xf,
            (a >> 12) & 0xf == (b >> 12) & 0xf,
            (a >> 16) & 0xf == (b >> 16) & 0xf,
            (a >> 20) & 0xf == (b >> 20) & 0xf,
            (a >> 24) & 0xf == (b >> 24) & 0xf,
            (a >> 28) & 0xf == (b >> 28) & 0xf,
            (a >> 32) & 0xf == (b >> 32) & 0xf,
            (a >> 36) & 0xf == (b >> 36) & 0xf,
            (a >> 40) & 0xf == (b >> 40) & 0xf,
            (a >> 44) & 0xf == (b >> 44) & 0xf,
            (a >> 48) & 0xf == (b >> 48) & 0xf,
            (a >> 52) & 0xf == (b >> 52) & 0xf,
            (a >> 56) & 0xf == (b >> 56) & 0xf,
            (a >> 60) & 0xf == (b >> 60) & 0xf,
            (a >> 64) & 0xf == (b >> 64) & 0xf,
            (a >> 68) & 0xf == (b >> 68) & 0xf,
            (a >> 72) & 0xf == (b >> 72) & 0xf,
            (a >> 76) & 0xf == (b >> 76) & 0xf,
            (a >> 80) & 0xf == (b >> 80) & 0xf,
            (a >> 84) & 0xf == (b >> 84) & 0xf,
            (a >> 88) & 0xf == (b >> 88) & 0xf,
            (a >> 92) & 0xf == (b >> 92) & 0xf,
            (a >> 96) & 0xf == (b >> 96) & 0xf,
            (a >> 100) & 0xf == (b >> 100) & 0xf,
            (a >> 104) & 0xf == (b >> 104) & 0xf,
            (a >> 108) & 0xf == (b >> 108) & 0xf,
            (a >> 112) & 0xf == (b >> 112) & 0xf,
            (a >> 116) & 0xf == (b >> 116) & 0xf,
            (a >> 120) & 0xf == (b >> 120) & 0xf,
            (a >> 124) & 0xf == (b >> 124) & 0xf,
    ;
}

} // verus!
