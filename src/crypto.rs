use crate::bytes::{append_bytes, copy_range, slice_to_vec};
use ring::aead::{Aad, LessSafeKey, Nonce, UnboundKey, AES_256_GCM};
use ring::rand::{SecureRandom, SystemRandom};
use vstd::prelude::*;

verus! {

/// Length of the random nonce that leads every sealed value.
pub const NONCE_LEN: usize = 12;

/// Length of the authentication tag that AES-256-GCM appends.
pub const TAG_LEN: usize = 16;

/// What AES-256-GCM produces for `plain` under `key` and `nonce`: the
/// ciphertext followed by the tag.
pub uninterp spec fn aes_gcm_seal_of(key: Seq<u8>, nonce: Seq<u8>, plain: Seq<u8>) -> Seq<u8>;

/// What AES-256-GCM authenticated decryption yields for `sealed` (ciphertext
/// followed by tag) under `key` and `nonce`; `None` when the tag does not verify.
pub uninterp spec fn aes_gcm_open_of(key: Seq<u8>, nonce: Seq<u8>, sealed: Seq<u8>) -> Option<Seq<u8>>;

/// Relies on ring's `SystemRandom::fill`: a fresh random nonce, or `None`
/// when the operating system's generator fails.
#[verifier::external_body]
fn random_nonce() -> (r: Option<[u8; 12]>) {
    let mut n = [0u8; 12];
    SystemRandom::new().fill(&mut n).ok()?;
    Some(n)
}

/// Relies on ring's `LessSafeKey::seal_in_place_append_tag` with AES-256-GCM and
/// no associated data: the output is the ciphertext, as long as the input,
/// followed by a 16-byte tag, and opening it again under the same key and
/// nonce gives back the input. ring refuses inputs above its length limit.
#[verifier::external_body]
fn aes_gcm_seal(key: &[u8; 32], nonce: &[u8; 12], plain: &Vec<u8>) -> (r: Option<Vec<u8>>)
    ensures
        r matches Some(s) ==> s@ == aes_gcm_seal_of(key@, nonce@, plain@),
        r matches Some(s) ==> s@.len() == plain@.len() + TAG_LEN,
        r matches Some(s) ==> aes_gcm_open_of(key@, nonce@, s@) == Some(plain@),
{
    let k = LessSafeKey::new(UnboundKey::new(&AES_256_GCM, key).ok()?);
    let mut in_out = plain.clone();
    k.seal_in_place_append_tag(Nonce::assume_unique_for_key(*nonce), Aad::empty(), &mut in_out).ok()?;
    Some(in_out)
}

/// Relies on ring's `LessSafeKey::open_in_place` with AES-256-GCM and no
/// associated data: it returns the plaintext only when the tag verifies, and
/// a plaintext it returns is exactly what sealing maps back onto the input.
#[verifier::external_body]
fn aes_gcm_open(key: &[u8; 32], nonce: &[u8; 12], sealed: &Vec<u8>) -> (r: Option<Vec<u8>>)
    ensures
        r matches Some(p) ==> aes_gcm_open_of(key@, nonce@, sealed@) == Some(p@),
        r is None ==> aes_gcm_open_of(key@, nonce@, sealed@) is None,
        r matches Some(p) ==> aes_gcm_seal_of(key@, nonce@, p@) == sealed@,
        r matches Some(p) ==> sealed@.len() == p@.len() + TAG_LEN,
{
    let k = LessSafeKey::new(UnboundKey::new(&AES_256_GCM, key).ok()?);
    let mut in_out = sealed.clone();
    let plain = k.open_in_place(Nonce::assume_unique_for_key(*nonce), Aad::empty(), &mut in_out).ok()?;
    Some(plain.to_vec())
}

/// Why sealing or opening failed.
#[derive(Debug, Clone, Copy, PartialEq, Eq)]
pub enum CryptoError {
    /// No random nonce could be drawn.
    NonceUnavailable,
    /// The cipher refused the payload (longer than AES-GCM allows).
    SealingFailed,
    /// The input is shorter than a nonce, or its tag does not verify.
    AuthenticationFailure,
}

/// What opening `sealed` yields under `key`: the payload, or nothing when the
/// value is shorter than a nonce or does not authenticate.
pub open spec fn open_spec(key: Seq<u8>, sealed: Seq<u8>) -> Option<Seq<u8>> {
    if sealed.len() < NONCE_LEN {
        None
    } else {
        aes_gcm_open_of(
            key,
            sealed.subrange(0, NONCE_LEN as int),
            sealed.subrange(NONCE_LEN as int, sealed.len() as int),
        )
    }
}

/// Authenticated encryption of opaque payloads under one fixed 256-bit key.
pub struct Crypto {
    key: [u8; 32],
}

impl Crypto {
    /// The key's bytes.
    pub closed spec fn key_spec(&self) -> Seq<u8> {
        self.key@
    }

    /// A box that seals and opens under `key_bytes`.
    pub fn new(key_bytes: &[u8; 32]) -> (r: Crypto)
        ensures
            r.key_spec() == key_bytes@,
    {
        Crypto { key: *key_bytes }
    }

    /// Seals `data` as `nonce ‖ ciphertext ‖ tag` with a fresh random nonce.
    /// Whatever nonce is drawn, opening the result gives `data` back.
    pub fn encrypt(&self, data: &[u8]) -> (r: Result<Vec<u8>, CryptoError>)
        ensures
            r matches Ok(s) ==> open_spec(self.key_spec(), s@) == Some(data@),
            r matches Ok(s) ==> s@.len() == NONCE_LEN + data@.len() + TAG_LEN,
            r matches Ok(s) ==> s@.subrange(NONCE_LEN as int, s@.len() as int)
                == aes_gcm_seal_of(self.key_spec(), s@.subrange(0, NONCE_LEN as int), data@),
            r matches Err(e) ==> e != CryptoError::AuthenticationFailure,
    {
        let nonce = match random_nonce() {
            Some(n) => n,
            None => return Err(CryptoError::NonceUnavailable),
        };
        let plain = slice_to_vec(data);
        let sealed = match aes_gcm_seal(&self.key, &nonce, &plain) {
            Some(s) => s,
            None => return Err(CryptoError::SealingFailed),
        };
        let mut out = nonce_to_vec(&nonce);
        append_bytes(&mut out, &sealed);
        assert(out@.subrange(0, NONCE_LEN as int) =~= nonce@);
        assert(out@.subrange(NONCE_LEN as int, out@.len() as int) =~= sealed@);
        Ok(out)
    }

    /// Opens a value produced by `encrypt`. Fails with `AuthenticationFailure`
    /// when it is shorter than a nonce or its tag does not verify; a payload it
    /// returns is one whose sealing under the leading nonce is exactly the rest
    /// of the input.
    pub fn decrypt(&self, encrypted_data: &[u8]) -> (r: Result<Vec<u8>, CryptoError>)
        ensures
            r matches Ok(p) ==> open_spec(self.key_spec(), encrypted_data@) == Some(p@),
            r is Err ==> open_spec(self.key_spec(), encrypted_data@) is None,
            r matches Err(e) ==> e == CryptoError::AuthenticationFailure,
            encrypted_data@.len() < NONCE_LEN ==> r is Err,
            r matches Ok(p) ==> encrypted_data@.subrange(NONCE_LEN as int, encrypted_data@.len() as int)
                == aes_gcm_seal_of(self.key_spec(), encrypted_data@.subrange(0, NONCE_LEN as int), p@),
    {
        if encrypted_data.len() < NONCE_LEN {
            return Err(CryptoError::AuthenticationFailure);
        }
        let all = slice_to_vec(encrypted_data);
        let nonce = nonce_from(&all);
        let sealed = copy_range(&all, NONCE_LEN, all.len());
        match aes_gcm_open(&self.key, &nonce, &sealed) {
            Some(p) => Ok(p),
            None => Err(CryptoError::AuthenticationFailure),
        }
    }
}

fn nonce_to_vec(n: &[u8; 12]) -> (r: Vec<u8>)
    ensures
        r@ == n@,
{
    let mut r: Vec<u8> = Vec::new();
    let mut i: usize = 0;
    while i < 12
        invariant
            i <= 12,
            n@.len() == 12,
            r@ == n@.subrange(0, i as int),
        decreases 12 - i,
    {
        r.push(n[i]);
        i = i + 1;
        assert(r@ =~= n@.subrange(0, i as int));
    }
    assert(r@ =~= n@);
    r
}

fn nonce_from(v: &Vec<u8>) -> (r: [u8; 12])
    requires
        v@.len() >= NONCE_LEN,
    ensures
        r@ == v@.subrange(0, NONCE_LEN as int),
{
    let mut n: [u8; 12] = [0u8; 12];
    let mut i: usize = 0;
    while i < 12
        invariant
            i <= 12,
            v@.len() >= NONCE_LEN,
            n@.len() == 12,
            forall|j: int| 0 <= j < i ==> n@[j] == v@[j],
        decreases 12 - i,
    {
        n[i] = v[i];
        i = i + 1;
    }
    assert(n@ =~= v@.subrange(0, NONCE_LEN as int));
    n
}

} // verus!
