//! The host services the ledger relies on: hashing account identifiers into
//! storage keys, and the syntax check on identifiers.
use vstd::prelude::*;

verus! {

/// The SHA-256 digest of the UTF-8 bytes of an account identifier.
pub uninterp spec fn id_hash(id: Seq<char>) -> Seq<u8>;

/// `-`, `_` and `.` separate the parts of an account identifier.
pub open spec fn is_separator(c: char) -> bool {
    c == '-' || c == '_' || c == '.'
}

/// Lower-case ASCII letters, ASCII digits and separators.
pub open spec fn is_id_char(c: char) -> bool {
    ||| ('a' as u32 <= c as u32 && c as u32 <= 'z' as u32)
    ||| ('0' as u32 <= c as u32 && c as u32 <= '9' as u32)
    ||| is_separator(c)
}

/// A well-formed account identifier: 2 to 64 characters, each a lower-case
/// letter, a digit or a separator, with no separator first, last, or next
/// to another.
pub open spec fn is_valid_id(id: Seq<char>) -> bool {
    &&& 2 <= id.len() <= 64
    &&& forall|i: int| 0 <= i < id.len() ==> is_id_char(#[trigger] id[i])
    &&& !is_separator(id[0])
    &&& !is_separator(id[id.len() - 1])
    &&& forall|i: int| 0 <= i < id.len() - 1 ==> !(is_separator(#[trigger] id[i]) && is_separator(id[i + 1]))
}

/// Relies on `near_sdk::env::sha256`: the digest depends on the bytes hashed
/// alone. The host computes it, so it can only be had where a blockchain
/// interface (the real one, or a mocked one) is installed in this thread:
/// elsewhere the result is `None`, and `near_sdk::env::sha256` is not called.
#[verifier::external_body]
pub(crate) fn hash_account_id(id: &String) -> (r: Option<Vec<u8>>)
    ensures
        r matches Some(h) ==> h@ == id_hash(id@),
{
    let installed = near_sdk::env::BLOCKCHAIN_INTERFACE.with(|b| b.borrow().is_some());
    if installed {
        Some(near_sdk::env::sha256(id.as_bytes()))
    } else {
        None
    }
}

/// Relies on `near_sdk::env::is_valid_account_id`: its length bounds
/// (2 to 64 bytes), its allowed bytes (`a-z`, `0-9`, `-`, `_`, `.`) and its
/// rule on separators (none first, last, or next to another). Any byte
/// outside ASCII is refused, so counting characters gives the same answer as
/// counting bytes.
#[verifier::external_body]
pub(crate) fn valid_account_id(id: &String) -> (r: bool)
    ensures
        r == is_valid_id(id@),
{
    near_sdk::env::is_valid_account_id(id.as_bytes())
}

} // verus!
