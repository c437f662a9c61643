//! Base64 text of byte strings.

use vstd::prelude::*;

verus! {

/// The standard, padded Base64 text of `bytes`.
pub uninterp spec fn base64_text(bytes: Seq<u8>) -> Seq<char>;

/// What `base64::decode` makes of `text`: the bytes, or its error's text.
pub uninterp spec fn base64_decoded(text: Seq<char>) -> Result<Seq<u8>, Seq<char>>;

/// `base64::encode`: the standard, padded Base64 text of `bytes`. Claimed:
/// the result is the named one, and decoding it gives `bytes` back.
#[verifier::external_body]
pub(crate) fn base64_encode(bytes: &[u8]) -> (s: String)
    ensures
        s@ == base64_text(bytes@),
        base64_decoded(s@) is Ok && base64_decoded(s@)->Ok_0 == bytes@,
{
    base64::encode(bytes)
}

/// `base64::decode`, its error as text. Claimed: the result is the named one.
#[verifier::external_body]
pub(crate) fn base64_decode(text: &str) -> (r: Result<Vec<u8>, String>)
    ensures
        match r {
            Ok(b) => base64_decoded(text@) is Ok && base64_decoded(text@)->Ok_0 == b@,
            Err(e) => base64_decoded(text@) is Err && base64_decoded(text@)->Err_0 == e@,
        },
{
    match base64::decode(text) {
        Ok(b) => Ok(b),
        Err(e) => Err(e.to_string()),
    }
}

} // verus!
