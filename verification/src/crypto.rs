//! The encrypted container codec: password-based key derivation and the
//! authenticated on-disk layout `salt (16) || nonce (12) || ciphertext+tag`.
//!
//! Salt and nonce are drawn fresh from the OS random source on every save.
//! The key is derived from the password and salt by PBKDF2 (HMAC-SHA-256,
//! a fixed iteration count) and never leaves the call. Tag verification on
//! load is the only password check: a wrong password and corrupted data are
//! indistinguishable by design.

use crate::records::lemma_parse_serialize_pairs;
use crate::records::pairs_clean;
use crate::records::parse_pairs;
use crate::records::serialize_pairs;
use crate::store::distinct_keys;
use crate::store::map_of_pairs;
use crate::store::Wallet;
use aes_gcm::aead::rand_core::RngCore;
use aes_gcm::aead::Aead;
use aes_gcm::aead::KeyInit;
use aes_gcm::aead::OsRng;
use aes_gcm::Aes256Gcm;
use aes_gcm::Nonce;
use pbkdf2::pbkdf2_hmac;
use sha2::Sha256;
use vstd::prelude::*;
use vstd::slice::slice_subrange;
use vstd::string::StrSliceExecFns;
use vstd::utf8::decode_utf8;
use vstd::utf8::encode_utf8;
use vstd::utf8::encode_utf8_decode_utf8;
use vstd::utf8::encode_utf8_valid_utf8;
use vstd::utf8::valid_utf8;

verus! {

/// Iterations of the key-derivation function.
pub const PBKDF2_ITERATIONS: u32 = 100_000;

/// Bytes of random salt at the head of the file.
pub const SALT_LEN: usize = 16;

/// Bytes of random nonce after the salt.
pub const NONCE_LEN: usize = 12;

/// Bytes of the derived symmetric key.
pub const KEY_LEN: usize = 32;

/// Bytes of the authentication tag appended to the ciphertext.
pub const TAG_LEN: usize = 16;

/// Bytes of file header before any ciphertext: salt plus nonce.
pub const HEADER_LEN: usize = 28;

/// The cipher's plaintext limit in bytes (2^36); longer inputs are refused.
pub const SEAL_MAX: u64 = 0x10_0000_0000;

/// The conditions under which the codec refuses a file or a collection.
#[derive(Debug, Clone, Copy, PartialEq, Eq, Structural)]
pub enum CodecError {
    /// The file is shorter than the fixed salt-and-nonce header.
    Truncated,
    /// The ciphertext does not authenticate: wrong password or corrupted data.
    Unauthentic,
    /// The serialized collection exceeds the cipher's plaintext limit.
    Oversize,
}

/// The bytes that PBKDF2 with HMAC-SHA-256 derives from a password, a salt,
/// a round count and an output length.
pub uninterp spec fn pbkdf2_bytes(password: Seq<u8>, salt: Seq<u8>, rounds: u32, out_len: usize) -> Seq<u8>;

/// The ciphertext-with-tag that AES-256-GCM produces from a key, a nonce and
/// a plaintext.
pub uninterp spec fn gcm_seal(key: Seq<u8>, nonce: Seq<u8>, plaintext: Seq<u8>) -> Seq<u8>;

/// Relies on `pbkdf2::pbkdf2_hmac` with `sha2::Sha256`: it fills the output
/// buffer with a deterministic function of the password, the salt, the round
/// count and the buffer's length, and panics for no input.
#[verifier::external_body]
fn pbkdf2_hmac_sha256(password: &[u8], salt: &[u8], rounds: u32, out_len: usize) -> (r: Vec<u8>)
    ensures
        r@ == pbkdf2_bytes(password@, salt@, rounds, out_len),
        r@.len() == out_len,
{
    let mut key = vec![0u8; out_len];
    pbkdf2_hmac::<Sha256>(password, salt, rounds, &mut key);
    key
}

/// Relies on `aes_gcm::Aes256Gcm`: `new_from_slice` accepts a 32-byte key,
/// and `encrypt` maps a plaintext of at most 2^36 bytes to a ciphertext that
/// is a deterministic function of key, nonce and plaintext, exactly one
/// 16-byte tag longer than the plaintext.
#[verifier::external_body]
fn aes_gcm_encrypt(key: &[u8], nonce: &[u8], plaintext: &[u8]) -> (r: Vec<u8>)
    requires
        key@.len() == KEY_LEN,
        nonce@.len() == NONCE_LEN,
        plaintext@.len() <= SEAL_MAX,
    ensures
        r@ == gcm_seal(key@, nonce@, plaintext@),
        r@.len() == plaintext@.len() + TAG_LEN,
{
    let cipher = Aes256Gcm::new_from_slice(key).unwrap();
    cipher.encrypt(Nonce::from_slice(nonce), plaintext).unwrap()
}

/// Relies on `aes_gcm::Aes256Gcm`: `decrypt` inverts `encrypt` under the
/// same key and nonce — it succeeds on every ciphertext that sealing a
/// plaintext within the cipher's limit produces, returning that plaintext,
/// and whenever it succeeds its result re-seals to the given ciphertext.
#[verifier::external_body]
fn aes_gcm_decrypt(key: &[u8], nonce: &[u8], ciphertext: &[u8]) -> (r: Option<Vec<u8>>)
    requires
        key@.len() == KEY_LEN,
        nonce@.len() == NONCE_LEN,
    ensures
        r matches Some(pt) ==> pt@.len() + TAG_LEN == ciphertext@.len() && ciphertext@ == gcm_seal(
            key@,
            nonce@,
            pt@,
        ),
        forall|pt: Seq<u8>|
            pt.len() <= SEAL_MAX && ciphertext@ == #[trigger] gcm_seal(key@, nonce@, pt) ==> r
                is Some && r->Some_0@ == pt,
{
    let cipher = Aes256Gcm::new_from_slice(key).unwrap();
    cipher.decrypt(Nonce::from_slice(nonce), ciphertext).ok()
}

/// Relies on the OS random source (`OsRng::fill_bytes`): it fills the
/// buffer; nothing is assumed of the drawn values beyond their count.
#[verifier::external_body]
fn random_bytes(n: usize) -> (r: Vec<u8>)
    ensures
        r@.len() == n,
{
    let mut buf = vec![0u8; n];
    OsRng.fill_bytes(&mut buf);
    buf
}

/// Relies on `String::from_utf8`: it succeeds exactly on valid UTF-8 and
/// then returns the text those bytes encode.
#[verifier::external_body]
fn string_from_utf8(bytes: Vec<u8>) -> (r: Option<String>)
    ensures
        r is Some <==> valid_utf8(bytes@),
        r matches Some(s) ==> s@ == decode_utf8(bytes@),
{
    String::from_utf8(bytes).ok()
}

/// The key that the codec derives from a password and a salt.
pub open spec fn derived_key(password: Seq<char>, salt: Seq<u8>) -> Seq<u8> {
    pbkdf2_bytes(encode_utf8(password), salt, PBKDF2_ITERATIONS, KEY_LEN)
}

/// Derive the symmetric key from the password and salt.
fn derive_key(password: &str, salt: &[u8]) -> (r: Vec<u8>)
    ensures
        r@ == derived_key(password@, salt@),
        r@.len() == KEY_LEN,
{
    pbkdf2_hmac_sha256(password.as_bytes(), salt, PBKDF2_ITERATIONS, KEY_LEN)
}

/// The serialized collection as the bytes that get encrypted.
pub open spec fn plaintext_bytes(pairs: Seq<(Seq<char>, Seq<char>)>) -> Seq<u8> {
    encode_utf8(serialize_pairs(pairs))
}

/// The full file content a save with the given salt and nonce produces.
pub open spec fn saved_image(
    pairs: Seq<(Seq<char>, Seq<char>)>,
    password: Seq<char>,
    salt: Seq<u8>,
    nonce: Seq<u8>,
) -> Seq<u8> {
    salt + nonce + gcm_seal(derived_key(password, salt), nonce, plaintext_bytes(pairs))
}

/// Everything a save promises: it succeeds exactly when the serialized
/// collection fits the cipher's limit, and then the output is the salt, the
/// nonce and the sealed plaintext, in that order, for some fresh salt and
/// nonce of the fixed lengths.
pub open spec fn save_post(
    pairs: Seq<(Seq<char>, Seq<char>)>,
    password: Seq<char>,
    r: Result<Vec<u8>, CodecError>,
) -> bool {
    &&& (r is Ok <==> plaintext_bytes(pairs).len() <= SEAL_MAX)
    &&& (r matches Ok(out) ==> out@.len() == HEADER_LEN + plaintext_bytes(pairs).len() + TAG_LEN)
    &&& (r matches Ok(out) ==> exists|salt: Seq<u8>, nonce: Seq<u8>|
        salt.len() == SALT_LEN && nonce.len() == NONCE_LEN && out@ == #[trigger] saved_image(
            pairs,
            password,
            salt,
            nonce,
        ))
    &&& (r matches Err(e) ==> e is Oversize)
}

/// The loaded wallet describes the decrypted text: its view is the parsed
/// mapping, and when the parsed entries carry distinct keys it holds exactly
/// those entries in order.
pub open spec fn wallet_matches_text(w: Wallet, t: Seq<char>) -> bool {
    &&& w.wf()
    &&& w@ == map_of_pairs(parse_pairs(t))
    &&& (distinct_keys(parse_pairs(t)) ==> w.pairs() == parse_pairs(t))
}

/// Everything a load promises. A file shorter than the header is refused as
/// truncated before any cryptographic work. Otherwise the key is derived
/// from the password and the file's salt, and the load succeeds exactly on
/// ciphertexts obtained by sealing valid UTF-8 under that key and the file's
/// nonce; the result then describes that text. Every other failure —
/// wrong password and corrupted data alike — is `Unauthentic`.
pub open spec fn load_post(data: Seq<u8>, password: Seq<char>, r: Result<Wallet, CodecError>) -> bool {
    let salt = data.subrange(0, SALT_LEN as int);
    let nonce = data.subrange(SALT_LEN as int, HEADER_LEN as int);
    let ct = data.subrange(HEADER_LEN as int, data.len() as int);
    let key = derived_key(password, salt);
    &&& ((r is Err && r->Err_0 is Truncated) <==> data.len() < HEADER_LEN)
    &&& (r is Err ==> (r->Err_0 is Truncated || r->Err_0 is Unauthentic))
    &&& ((data.len() >= HEADER_LEN && exists|pt: Seq<u8>|
        pt.len() <= SEAL_MAX && ct == #[trigger] gcm_seal(key, nonce, pt) && valid_utf8(pt)) ==> r
        is Ok)
    &&& (r is Ok ==> exists|pt: Seq<u8>|
        ct == #[trigger] gcm_seal(key, nonce, pt) && valid_utf8(pt))
    &&& (r is Ok ==> forall|pt: Seq<u8>|
        (pt.len() <= SEAL_MAX && ct == #[trigger] gcm_seal(key, nonce, pt) && valid_utf8(pt))
            ==> wallet_matches_text(r->Ok_0, decode_utf8(pt)))
}

impl Wallet {
    /// Serialize and encrypt the collection under the given password: the
    /// complete file content of one save, with fresh random salt and nonce.
    pub fn to_encrypted_bytes(&self, password: &str) -> (r: Result<Vec<u8>, CodecError>)
        ensures
            save_post(self.pairs(), password@, r),
    {
        let text = self.serialize_records();
        let pt = text.as_str().as_bytes_vec();
        if !(pt.len() as u64 <= SEAL_MAX) {
            return Err(CodecError::Oversize);
        }
        let mut out = random_bytes(SALT_LEN);
        let key = derive_key(password, out.as_slice());
        let mut nonce = random_bytes(NONCE_LEN);
        let mut sealed = aes_gcm_encrypt(key.as_slice(), nonce.as_slice(), pt.as_slice());
        let ghost salt_bytes = out@;
        let ghost nonce_bytes = nonce@;
        out.append(&mut nonce);
        out.append(&mut sealed);
        proof {
            assert(out@ =~= saved_image(self.pairs(), password@, salt_bytes, nonce_bytes));
        }
        Ok(out)
    }

    /// Decrypt a container file's bytes under the given password and parse
    /// the recovered text into a collection.
    pub fn from_encrypted_bytes(data: &[u8], password: &str) -> (r: Result<Wallet, CodecError>)
        ensures
            load_post(data@, password@, r),
    {
        if data.len() < HEADER_LEN {
            return Err(CodecError::Truncated);
        }
        let salt = slice_subrange(data, 0, SALT_LEN);
        let nonce = slice_subrange(data, SALT_LEN, HEADER_LEN);
        let ct = slice_subrange(data, HEADER_LEN, data.len());
        let key = derive_key(password, salt);
        match aes_gcm_decrypt(key.as_slice(), nonce, ct) {
            None => Err(CodecError::Unauthentic),
            Some(pt) => {
                match string_from_utf8(pt) {
                    None => Err(CodecError::Unauthentic),
                    Some(text) => {
                        let w = Wallet::parse_records(text.as_str());
                        Ok(w)
                    },
                }
            },
        }
    }
}

/// Load a collection from a container file's bytes; when no file exists yet
/// (`data` is `None`), initialize the empty collection and hand back the
/// bytes of its first save, which establishes the password for that file.
pub fn load_or_init(data: Option<&Vec<u8>>, password: &str) -> (r: Result<
    (Wallet, Option<Vec<u8>>),
    CodecError,
>)
    ensures
        data is None ==> {
            &&& r is Ok
            &&& r->Ok_0.0.wf()
            &&& r->Ok_0.0.pairs() == Seq::<(Seq<char>, Seq<char>)>::empty()
            &&& r->Ok_0.0@ == Map::<Seq<char>, Seq<char>>::empty()
            &&& r->Ok_0.1 matches Some(file) && save_post(
                Seq::<(Seq<char>, Seq<char>)>::empty(),
                password@,
                Ok(file),
            )
        },
        data matches Some(d) ==> {
            &&& load_post(
                d@,
                password@,
                if r is Ok {
                    Ok(r->Ok_0.0)
                } else {
                    Err(r->Err_0)
                },
            )
            &&& (r is Ok ==> r->Ok_0.1 is None)
        },
{
    match data {
        None => {
            let w = Wallet::new();
            proof {
                assert(serialize_pairs(w.pairs()) =~= Seq::<char>::empty());
                assert(plaintext_bytes(w.pairs()) =~= Seq::<u8>::empty());
            }
            match w.to_encrypted_bytes(password) {
                Ok(file) => Ok((w, Some(file))),
                Err(_) => {
                    proof {
                        assert(false);
                    }
                    Err(CodecError::Oversize)
                },
            }
        },
        Some(d) => {
            match Wallet::from_encrypted_bytes(d.as_slice(), password) {
                Ok(w) => Ok((w, None)),
                Err(e) => Err(e),
            }
        },
    }
}

/// The pieces of a saved image: header lengths force the salt, nonce and
/// ciphertext regions.
proof fn lemma_saved_image_parts(
    data: Seq<u8>,
    pairs: Seq<(Seq<char>, Seq<char>)>,
    password: Seq<char>,
    salt: Seq<u8>,
    nonce: Seq<u8>,
)
    requires
        data == saved_image(pairs, password, salt, nonce),
        salt.len() == SALT_LEN,
        nonce.len() == NONCE_LEN,
    ensures
        data.len() >= HEADER_LEN,
        data.subrange(0, SALT_LEN as int) == salt,
        data.subrange(SALT_LEN as int, HEADER_LEN as int) == nonce,
        data.subrange(HEADER_LEN as int, data.len() as int) == gcm_seal(
            derived_key(password, salt),
            nonce,
            plaintext_bytes(pairs),
        ),
{
    assert(data.subrange(0, SALT_LEN as int) =~= salt);
    assert(data.subrange(SALT_LEN as int, HEADER_LEN as int) =~= nonce);
    assert(data.subrange(HEADER_LEN as int, data.len() as int) =~= gcm_seal(
        derived_key(password, salt),
        nonce,
        plaintext_bytes(pairs),
    ));
}

/// Law: loading a saved collection back with the same password succeeds and
/// reproduces the collection exactly — entry for entry, in order, and as a
/// mapping — provided the keys are distinct, no key or value holds `:` or a
/// newline, and the serialized collection fits the cipher's limit.
pub proof fn lemma_save_load_round_trip(
    pairs: Seq<(Seq<char>, Seq<char>)>,
    password: Seq<char>,
    saved: Result<Vec<u8>, CodecError>,
    loaded: Result<Wallet, CodecError>,
)
    requires
        pairs_clean(pairs),
        distinct_keys(pairs),
        password.len() > 0,
        plaintext_bytes(pairs).len() <= SEAL_MAX,
        save_post(pairs, password, saved),
        saved matches Ok(file) && load_post(file@, password, loaded),
    ensures
        loaded is Ok,
        loaded->Ok_0.pairs() == pairs,
        loaded->Ok_0@ == map_of_pairs(pairs),
        loaded->Ok_0.wf(),
{
    let out = saved->Ok_0@;
    let (salt, nonce) = choose|salt: Seq<u8>, nonce: Seq<u8>|
        salt.len() == SALT_LEN && nonce.len() == NONCE_LEN && out == #[trigger] saved_image(
            pairs,
            password,
            salt,
            nonce,
        );
    lemma_saved_image_parts(out, pairs, password, salt, nonce);
    let text = serialize_pairs(pairs);
    let ptb = plaintext_bytes(pairs);
    encode_utf8_valid_utf8(text);
    let ct = out.subrange(HEADER_LEN as int, out.len() as int);
    let key = derived_key(password, out.subrange(0, SALT_LEN as int));
    assert(ct == gcm_seal(key, out.subrange(SALT_LEN as int, HEADER_LEN as int), ptb));
    assert(loaded is Ok);
    encode_utf8_decode_utf8(text);
    lemma_parse_serialize_pairs(pairs);
    assert(wallet_matches_text(loaded->Ok_0, decode_utf8(ptb)));
}

} // verus!
