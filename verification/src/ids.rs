use vstd::prelude::*;

verus! {

/// A fresh random identifier, as the 128 bits of a version 4 UUID.
///
/// Wraps `uuid::Uuid::new_v4` and `Uuid::as_u128`. The value is random, so
/// the contract promises nothing of it.
#[verifier::external_body]
pub(crate) fn fresh_id() -> u128 {
    uuid::Uuid::new_v4().as_u128()
}

} // verus!

verus! {

/// Sixteen to the power `n`.
pub open spec fn pow16(n: nat) -> nat
    decreases n,
{
    if n == 0 {
        1
    } else {
        16 * pow16((n - 1) as nat)
    }
}

/// The lower-case hexadecimal digit for `d`, below sixteen.
pub open spec fn hex_char(d: nat) -> char {
    if d < 10 {
        crate::text::digit_char(d)
    } else if d == 10 {
        'a'
    } else if d == 11 {
        'b'
    } else if d == 12 {
        'c'
    } else if d == 13 {
        'd'
    } else if d == 14 {
        'e'
    } else {
        'f'
    }
}

/// The 32 hexadecimal digits of `id`, most significant first.
pub open spec fn id_hex(id: u128) -> Seq<char> {
    Seq::new(32, |k: int| hex_char((id as nat / pow16((31 - k) as nat)) % 16))
}

/// How a UUID is written: its digits in groups of 8, 4, 4, 4 and 12,
/// joined by hyphens.
pub open spec fn id_text(id: u128) -> Seq<char> {
    let h = id_hex(id);
    h.subrange(0, 8) + seq!['-'] + h.subrange(8, 12) + seq!['-'] + h.subrange(12, 16) + seq!['-']
        + h.subrange(16, 20) + seq!['-'] + h.subrange(20, 32)
}

/// The UUID with the 128 bits `id`, written out.
///
/// Wraps `uuid::Uuid::from_u128` and its `Display` impl, which writes the
/// hyphenated lower-case form: the contract claims that result.
#[verifier::external_body]
pub(crate) fn id_string(id: u128) -> (s: String)
    ensures
        s@ == id_text(id),
{
    uuid::Uuid::from_u128(id).to_string()
}

} // verus!
