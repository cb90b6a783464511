//! Shared secrets for clients that connect from other machines.
use vstd::prelude::*;

verus! {

/// The number of random bytes in an api key.
pub const API_KEY_BYTES: usize = 32;

/// What the standard, padded base64 engine returns for a byte string.
pub uninterp spec fn base64_of(b: Seq<u8>) -> Seq<char>;

/// Relies on `base64::Engine::encode` with `general_purpose::STANDARD`: the
/// result depends on the bytes alone. It panics only when the encoded length
/// overflows `usize`, which the bound excludes.
#[verifier::external_body]
fn base64_encode(b: &Vec<u8>) -> (r: String)
    requires
        b@.len() <= usize::MAX / 2,
    ensures
        r@ == base64_of(b@),
{
    base64::Engine::encode(&base64::engine::general_purpose::STANDARD, b)
}

/// Relies on `rand::thread_rng` and `Rng::fill`: `n` bytes, each drawn at random.
#[verifier::external_body]
fn random_bytes(n: usize) -> (r: Vec<u8>)
    ensures
        r@.len() == n,
{
    let mut bytes = vec![0u8; n];
    rand::Rng::fill(&mut rand::thread_rng(), &mut bytes[..]);
    bytes
}

/// The api key text of the given secret bytes.
pub fn encode_api_key(bytes: &Vec<u8>) -> (r: String)
    requires
        bytes@.len() <= usize::MAX / 2,
    ensures
        r@ == base64_of(bytes@),
{
    base64_encode(bytes)
}

/// A fresh api key: 32 random bytes in standard base64.
pub fn generate_api_key() -> (r: String)
    ensures
        exists|b: Seq<u8>| b.len() == API_KEY_BYTES && r@ == base64_of(b),
{
    let bytes = random_bytes(API_KEY_BYTES);
    encode_api_key(&bytes)
}

} // verus!
