//! Row identifiers: 16-byte UUIDs, minted by the `uuid` crate and shown in
//! hyphenated form.
use vstd::prelude::*;
use uuid::Uuid;

verus! {

/// The lower-case hexadecimal digit for `n` in 0..16.
pub open spec fn hex_digit(n: int) -> char {
    if n < 10 {
        (48 + n) as char
    } else {
        (87 + n) as char
    }
}

/// The hyphenated form of a 16-byte identifier: 32 lower-case hexadecimal
/// digits, two for each byte in order, in groups of 8, 4, 4, 4 and 12 with a
/// hyphen between groups.
pub open spec fn hyphenated(bytes: Seq<u8>) -> Seq<char> {
    Seq::new(
        36,
        |i: int|
            if i == 8 || i == 13 || i == 18 || i == 23 {
                '-'
            } else {
                let k = if i < 8 {
                    i
                } else if i < 13 {
                    i - 1
                } else if i < 18 {
                    i - 2
                } else if i < 23 {
                    i - 3
                } else {
                    i - 4
                };
                if k % 2 == 0 {
                    hex_digit(bytes[k / 2] as int / 16)
                } else {
                    hex_digit(bytes[k / 2] as int % 16)
                }
            },
    )
}

/// Calls `Uuid::from_slice` and shows the identifier with
/// `Uuid::hyphenated`. The first succeeds exactly on 16 bytes; the second
/// gives the form that [`hyphenated`] states.
#[verifier::external_body]
pub(crate) fn uuid_text(bytes: &[u8]) -> (text: Option<String>)
    ensures
        text is Some <==> bytes@.len() == 16,
        text matches Some(t) ==> t@ == hyphenated(bytes@),
{
    match Uuid::from_slice(bytes) {
        Ok(id) => Some(id.hyphenated().to_string()),
        Err(_) => None,
    }
}

/// The bytes of a version 7 identifier: 16 of them, with 7 in the upper
/// half of byte 6 and the bits `10` at the top of byte 8.
pub open spec fn version_7(id: Seq<u8>) -> bool {
    id.len() == 16 && id[6] / 16 == 7 && id[8] / 64 == 2
}

/// Calls `Uuid::now_v7` for a fresh time-ordered identifier and hands out
/// its 16 bytes. Which bytes come back depends on the clock and on chance,
/// but for the version and variant bits, which the crate always sets.
#[verifier::external_body]
pub(crate) fn fresh_id() -> (id: Vec<u8>)
    ensures
        version_7(id@),
{
    Uuid::now_v7().as_bytes().to_vec()
}

} // verus!
