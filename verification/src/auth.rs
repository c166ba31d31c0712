//! Native password authentication: the challenge response is computed from
//! the password and the server's 20-byte challenge through a black-box
//! digest.

use sha1::Digest;
use vstd::prelude::*;

verus! {

/// What the SHA-1 digest of a byte sequence is: a function of the bytes
/// alone.
pub uninterp spec fn sha1_of(s: Seq<u8>) -> Seq<u8>;

/// Relies on `sha1::Sha1::digest` (the RustCrypto one-shot API): the result
/// depends on the input bytes alone and is always 20 bytes.
#[verifier::external_body]
fn sha1_digest(data: &[u8]) -> (r: Vec<u8>)
    ensures
        r@ == sha1_of(data@),
        r@.len() == 20,
{
    sha1::Sha1::digest(data).to_vec()
}

/// The byte-wise xor of two equal-length sequences.
pub open spec fn xor_bytes(a: Seq<u8>, b: Seq<u8>) -> Seq<u8> {
    Seq::new(a.len(), |k: int| a[k] ^ b[k])
}

/// The native-password challenge response:
/// SHA1(password) xor SHA1(challenge ++ SHA1(SHA1(password))).
pub open spec fn native_password_spec(password: Seq<u8>, challenge: Seq<u8>) -> Seq<u8> {
    xor_bytes(sha1_of(password), sha1_of(challenge + sha1_of(sha1_of(password))))
}

/// Computes the 20-byte native-password challenge response.
pub fn native_password_auth(password: &[u8], auth_data: &[u8]) -> (r: Vec<u8>)
    ensures
        r@ == native_password_spec(password@, auth_data@),
        r@.len() == 20,
{
    let h1 = sha1_digest(password);
    let h2 = sha1_digest(h1.as_slice());
    let mut joined: Vec<u8> = Vec::new();
    crate::codec::put_bytes(auth_data, &mut joined);
    crate::codec::put_bytes(h2.as_slice(), &mut joined);
    proof {
        assert(joined@ =~= auth_data@ + sha1_of(sha1_of(password@)));
    }
    let multi = sha1_digest(joined.as_slice());
    let mut out: Vec<u8> = Vec::new();
    let mut k: usize = 0;
    while k < 20
        invariant
            k <= 20,
            h1@ == sha1_of(password@),
            h1@.len() == 20,
            multi@ == sha1_of(auth_data@ + sha1_of(sha1_of(password@))),
            multi@.len() == 20,
            out@ == native_password_spec(password@, auth_data@).subrange(0, k as int),
        decreases 20 - k,
    {
        let b = h1[k] ^ multi[k];
        out.push(b);
        proof {
            assert(out@ =~= native_password_spec(password@, auth_data@).subrange(0, k + 1));
        }
        k = k + 1;
    }
    proof {
        assert(native_password_spec(password@, auth_data@).subrange(0, 20) =~= native_password_spec(
            password@,
            auth_data@,
        ));
    }
    out
}

/// The auth response the connection phase sends: empty for an empty
/// password, the challenge response otherwise.
pub fn auth_response(password: &[u8], auth_data: &[u8]) -> (r: Vec<u8>)
    ensures
        password@.len() == 0 ==> r@ == Seq::<u8>::empty(),
        password@.len() > 0 ==> r@ == native_password_spec(password@, auth_data@) && r@.len()
            == 20,
{
    if password.is_empty() {
        Vec::new()
    } else {
        native_password_auth(password, auth_data)
    }
}

} // verus!
