use vstd::prelude::*;

verus! {

/// The HMAC-SHA-256 tag of `msg` keyed by `key`: a 32-byte sequence that is a
/// function of the two arguments alone. The algorithm itself is left
/// unspecified; the trusted wrapper below ties this name to the `hmac` crate.
pub uninterp spec fn hmac_sha256_of(key: Seq<u8>, msg: Seq<u8>) -> Seq<u8>;

/// Relies on `hmac::Hmac<sha2::Sha256>`: `new_from_slice` derives the HMAC key
/// from a slice of any length and never fails (its source always returns
/// `Ok`), and `finalize` yields the tag, whose length is SHA-256's output
/// size of 32 bytes. The tag is a deterministic function of key and message.
#[verifier::external_body]
pub(crate) fn hmac_sha256(key: &[u8], msg: &[u8]) -> (r: Vec<u8>)
    ensures
        r@ == hmac_sha256_of(key@, msg@),
        r@.len() == 32,
{
    let mut m = <hmac::Hmac<sha2::Sha256> as hmac::KeyInit>::new_from_slice(key)
        .expect("HMAC accepts keys of any length");
    hmac::Mac::update(&mut m, msg);
    hmac::Mac::finalize(m).into_bytes().to_vec()
}

} // verus!
