//! Break ids and generated file names are random UUIDs from the `uuid`
//! crate, handled here as their 128-bit values.
use vstd::arithmetic::power2::pow2;
use vstd::prelude::*;

verus! {

/// `id` carries the marks of a random (version 4, RFC 4122 variant) UUID in
/// its big-endian 128-bit form.
pub open spec fn is_v4_uuid(id: u128) -> bool {
    &&& (id >> 76u128) & 0xfu128 == 4u128
    &&& (id >> 62u128) & 0x3u128 == 2u128
}

/// `uuid::Uuid::new_v4`, taken as its 128-bit value (`as_u128`). Claims only
/// the version and variant bits that every such UUID has; the rest is
/// random.
#[verifier::external_body]
pub(crate) fn new_uuid() -> (id: u128)
    ensures
        is_v4_uuid(id),
{
    uuid::Uuid::new_v4().as_u128()
}

/// The lowercase hexadecimal digit for `n` in `0..16`.
pub open spec fn hex_digit(n: int) -> char {
    if n < 10 {
        (48 + n) as char
    } else {
        (87 + n) as char
    }
}

/// Which of the 32 hex digits sits at position `j` of the hyphenated text
/// (groups of 8, 4, 4, 4 and 12 digits).
pub open spec fn uuid_digit_index(j: int) -> int {
    if j < 8 {
        j
    } else if j < 13 {
        j - 1
    } else if j < 18 {
        j - 2
    } else if j < 23 {
        j - 3
    } else {
        j - 4
    }
}

/// The hyphenated lowercase text of the UUID with 128-bit value `id`, most
/// significant digit first, e.g. `67e55044-10b1-426f-9247-bb680e5fe0c8`.
pub open spec fn spec_uuid_text(id: u128) -> Seq<char> {
    Seq::new(
        36,
        |j: int|
            if j == 8 || j == 13 || j == 18 || j == 23 {
                '-'
            } else {
                hex_digit((id as int / pow2((4 * (31 - uuid_digit_index(j))) as nat) as int) % 16)
            },
    )
}

/// `uuid::Uuid::from_u128(id)` formatted through its `Display` impl, which
/// writes the hyphenated lowercase form. Claims that text, as `spec_uuid_text`
/// spells it out.
#[verifier::external_body]
pub fn uuid_text(id: u128) -> (s: String)
    ensures
        s@ == spec_uuid_text(id),
{
    uuid::Uuid::from_u128(id).to_string()
}

} // verus!
