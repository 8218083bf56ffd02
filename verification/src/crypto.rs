//! Authenticated encryption of serialized records at rest.
//!
//! The transform is AES-256-GCM. Each call to `encrypt` draws a fresh 96-bit
//! nonce from the operating system's secure random source and returns the
//! self-describing blob `nonce (12 bytes) || ciphertext || tag (16 bytes)`;
//! `decrypt` extracts nonce and tag from the blob and accepts nothing whose
//! tag does not verify. Both calls are stateless: each takes its key as an
//! argument and holds no key material between calls.
use vstd::prelude::*;

verus! {

/// Number of bytes of the nonce that leads every blob.
pub const NONCE_LEN: usize = 12;

/// Number of bytes of the authentication tag that ends every blob.
pub const TAG_LEN: usize = 16;

/// Largest plaintext AES-GCM accepts for a single message (2^36 - 32 bytes).
pub const MAX_PLAINTEXT_LEN: u64 = 68719476704;

/// A 256-bit symmetric key handle, supplied per call by an external key
/// provider. This layer never generates, stores, or logs keys.
#[derive(Clone, Copy)]
pub struct Key {
    pub bytes: [u8; 32],
}

impl View for Key {
    type V = Seq<u8>;

    open spec fn view(&self) -> Seq<u8> {
        self.bytes@
    }
}

impl Key {
    /// Wraps raw key material from the external key provider.
    pub fn from_bytes(bytes: [u8; 32]) -> (k: Key)
        ensures
            k@ == bytes@,
    {
        Key { bytes }
    }
}

/// Error of `encrypt`: the secure random source failed, so no safe nonce
/// could be drawn. Never retried silently.
#[derive(Clone, Copy, Debug, PartialEq, Eq, Structural)]
pub enum EncryptError {
    RandomSourceUnavailable,
}

/// Errors of `decrypt`. `Malformed` is structural (blob too short to hold a
/// nonce and a tag); `AuthenticationFailed` covers every integrity failure
/// (wrong key, tampered ciphertext, corrupted nonce) without distinguishing
/// them, so no oracle reveals why verification failed.
#[derive(Clone, Copy, Debug, PartialEq, Eq, Structural)]
pub enum DecryptError {
    Malformed,
    AuthenticationFailed,
}

/// Names the result of AES-256-GCM decryption (`aes_gcm::Aes256Gcm` through
/// `aead::Aead::decrypt`) for a key, a 12-byte nonce and a
/// ciphertext-with-trailing-tag: the outcome is a function of those
/// arguments alone.
pub uninterp spec fn gcm_open_of(key: Seq<u8>, nonce: Seq<u8>, ct: Seq<u8>) -> Option<Seq<u8>>;

/// Relies on `aes_gcm::Aes256Gcm` via `aead::Aead::encrypt`: seals the
/// plaintext under the key and nonce, returning the ciphertext followed by
/// the 16-byte tag. The crate's source shows that encryption succeeds for
/// every plaintext within the AES-GCM length bound, and that decrypting the
/// result with the same key and nonce yields exactly the plaintext.
#[verifier::external_body]
fn aead_seal(key: &Key, nonce: &[u8], plaintext: &[u8]) -> (r: Vec<u8>)
    requires
        nonce@.len() == 12,
        plaintext@.len() <= MAX_PLAINTEXT_LEN,
    ensures
        r@.len() == plaintext@.len() + 16,
        gcm_open_of(key@, nonce@, r@) == Some(plaintext@),
{
    let cipher = <aes_gcm::Aes256Gcm as aes_gcm::aead::KeyInit>::new(
        &aes_gcm::Key::<aes_gcm::Aes256Gcm>::from(key.bytes),
    );
    let nonce_arr = aes_gcm::Nonce::try_from(nonce).expect("nonce is 12 bytes");
    aes_gcm::aead::Aead::encrypt(&cipher, &nonce_arr, plaintext)
        .expect("plaintext within the AES-GCM length bound")
}

/// Relies on `aes_gcm::Aes256Gcm` via `aead::Aead::decrypt`: verifies the
/// trailing 16-byte tag of `ct` against the key and nonce and returns the
/// plaintext only on success. The outcome is the function of the arguments
/// named by `gcm_open_of`.
#[verifier::external_body]
fn aead_open(key: &Key, nonce: &[u8], ct: &[u8]) -> (r: Option<Vec<u8>>)
    requires
        nonce@.len() == 12,
    ensures
        r is Some <==> gcm_open_of(key@, nonce@, ct@) is Some,
        r matches Some(pt) ==> gcm_open_of(key@, nonce@, ct@) == Some(pt@) && ct@.len() == pt@.len() + 16,
{
    let cipher = <aes_gcm::Aes256Gcm as aes_gcm::aead::KeyInit>::new(
        &aes_gcm::Key::<aes_gcm::Aes256Gcm>::from(key.bytes),
    );
    let nonce_arr = aes_gcm::Nonce::try_from(nonce).expect("nonce is 12 bytes");
    aes_gcm::aead::Aead::decrypt(&cipher, &nonce_arr, ct).ok()
}

/// Relies on `getrandom::fill`: fills the buffer from the operating system's
/// secure random source. Nothing is assumed of the bytes themselves; two
/// calls may (and with overwhelming probability do) differ.
#[verifier::external_body]
fn generate_nonce() -> (r: Option<Vec<u8>>)
    ensures
        r matches Some(n) ==> n@.len() == 12,
{
    let mut buf = [0u8; 12];
    match getrandom::fill(&mut buf) {
        Ok(()) => Some(buf.to_vec()),
        Err(_) => None,
    }
}

/// Holds when `blob` is a well-formed encryption of `plaintext` under `key`:
/// it carries a 12-byte nonce, the ciphertext and a 16-byte tag, and GCM
/// opens it back to exactly `plaintext` under the same key and nonce.
pub open spec fn sealed_blob_for(blob: Seq<u8>, key: Seq<u8>, plaintext: Seq<u8>) -> bool {
    &&& blob.len() == plaintext.len() + 28
    &&& gcm_open_of(key, blob.take(12), blob.skip(12)) == Some(plaintext)
}

/// What `decrypt` returns for a blob and key: a structural failure for blobs
/// too short to hold a nonce and a tag, an authentication failure when GCM
/// rejects the tag, and otherwise exactly the plaintext GCM recovers.
pub open spec fn spec_decrypt(blob: Seq<u8>, key: Seq<u8>) -> Result<Seq<u8>, DecryptError> {
    if blob.len() < 28 {
        Err(DecryptError::Malformed)
    } else {
        match gcm_open_of(key, blob.take(12), blob.skip(12)) {
            Some(pt) => Ok(pt),
            None => Err(DecryptError::AuthenticationFailed),
        }
    }
}

/// Stateless encryption service: a namespace for the two transforms, holding
/// no key material and no state between calls.
pub struct EncryptionService {}

impl EncryptionService {
    /// Encrypts an arbitrary byte payload under a 256-bit key.
    ///
    /// On success the blob is `nonce || ciphertext || tag`, opens back to
    /// exactly the plaintext under the same key, and is 28 bytes longer than
    /// the plaintext. The only failure is an unavailable random source; the
    /// call is then surfaced, not retried.
    pub fn encrypt(plaintext: &[u8], key: &Key) -> (r: Result<Vec<u8>, EncryptError>)
        requires
            plaintext@.len() <= MAX_PLAINTEXT_LEN,
        ensures
            r matches Ok(blob) ==> sealed_blob_for(blob@, key@, plaintext@),
            r matches Err(e) ==> e == EncryptError::RandomSourceUnavailable,
    {
        match generate_nonce() {
            None => Err(EncryptError::RandomSourceUnavailable),
            Some(mut nonce) => {
                let mut sealed = aead_seal(key, nonce.as_slice(), plaintext);
                let ghost nonce_seq = nonce@;
                let ghost sealed_seq = sealed@;
                let mut blob: Vec<u8> = Vec::new();
                blob.append(&mut nonce);
                blob.append(&mut sealed);
                proof {
                    assert(blob@.take(12) =~= nonce_seq);
                    assert(blob@.skip(12) =~= sealed_seq);
                }
                Ok(blob)
            },
        }
    }

    /// Decrypts a blob produced by `encrypt` under the given key.
    ///
    /// Fails with `Malformed` exactly when the blob is shorter than 28 bytes
    /// (12-byte nonce plus 16-byte tag), with `AuthenticationFailed` exactly
    /// when the tag does not verify, and otherwise returns exactly the
    /// plaintext that was sealed.
    pub fn decrypt(blob: &[u8], key: &Key) -> (r: Result<Vec<u8>, DecryptError>)
        ensures
            r matches Ok(pt) ==> spec_decrypt(blob@, key@) == Ok::<Seq<u8>, DecryptError>(pt@),
            r matches Err(e) ==> spec_decrypt(blob@, key@) == Err::<Seq<u8>, DecryptError>(e),
    {
        if blob.len() < NONCE_LEN + TAG_LEN {
            return Err(DecryptError::Malformed);
        }
        let nonce = vstd::slice::slice_subrange(blob, 0, NONCE_LEN);
        let ct = vstd::slice::slice_subrange(blob, NONCE_LEN, blob.len());
        proof {
            assert(nonce@ =~= blob@.take(12));
            assert(ct@ =~= blob@.skip(12));
        }
        match aead_open(key, nonce, ct) {
            Some(pt) => Ok(pt),
            None => Err(DecryptError::AuthenticationFailed),
        }
    }
}

/// Law: decrypting a blob with the key that sealed it recovers exactly the
/// plaintext that was sealed — for every payload and every key, whatever
/// nonce the random source drew.
pub proof fn lemma_encrypt_decrypt_round_trip(blob: Seq<u8>, key: Seq<u8>, plaintext: Seq<u8>)
    requires
        sealed_blob_for(blob, key, plaintext),
    ensures
        spec_decrypt(blob, key) == Ok::<Seq<u8>, DecryptError>(plaintext),
{
}

} // verus!
