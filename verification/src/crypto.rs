//! Keys, nonces and the two sealing layers: whole chunks, and single packets.
//!
//! A sealed chunk is laid out as `nonce[12] ‖ ciphertext ‖ tag[16]`; a sealed packet as
//! `iv[12] ‖ ciphertext ‖ tag[16]`. Both use AES-256-GCM.

use vstd::prelude::*;
use aes_gcm::aead::{Aead, KeyInit, Payload};
use base64::Engine;
use rand::RngCore;
use vstd::string::StringSliceAdditionalSpecFns;
use crate::wire::{
    bytes_eq, put_be_u32, put_be_u64, spec_be_u32, spec_be_u64, lemma_be_roundtrip,
};

verus! {

broadcast use {vstd::slice::group_slice_axioms, vstd::array::group_array_axioms};

/// Bytes of a nonce or initialisation vector.
pub const IV_SIZE: usize = 12;

/// Bytes of an authentication tag.
pub const TAG_SIZE: usize = 16;

/// Bytes of a key.
pub const KEY_SIZE: usize = 32;

/// Most bytes AES-GCM takes as plaintext, and as associated data: 64 GiB.
pub const AEAD_MAX_INPUT: u64 = 0x10_0000_0000;

/// What AES-256-GCM makes of a plaintext: the ciphertext with the tag behind it.
pub uninterp spec fn spec_aes256_gcm_seal(
    key: Seq<u8>,
    nonce: Seq<u8>,
    aad: Seq<u8>,
    plaintext: Seq<u8>,
) -> Seq<u8>;

/// What AES-256-GCM recovers from a ciphertext with its tag: the plaintext, or nothing
/// where the tag does not fit.
pub uninterp spec fn spec_aes256_gcm_open(
    key: Seq<u8>,
    nonce: Seq<u8>,
    aad: Seq<u8>,
    sealed: Seq<u8>,
) -> Option<Seq<u8>>;

/// The 32 bytes that HKDF-SHA256 derives from a salt, key material and an info string.
pub uninterp spec fn spec_hkdf_sha256(salt: Seq<u8>, ikm: Seq<u8>, info: Seq<u8>) -> Seq<u8>;

/// The bytes that a text in standard base64 stands for, if it is one.
pub uninterp spec fn spec_base64_decode(text: Seq<char>) -> Option<Seq<u8>>;

/// The error of the `aes-gcm` crate; it carries nothing.
#[verifier::external_type_specification]
#[verifier::external_body]
pub struct ExAeadError(aes_gcm::Error);

/// The error of `base64` decoding.
#[verifier::external_type_specification]
#[verifier::external_body]
pub struct ExBase64DecodeError(base64::DecodeError);

/// `Aes256Gcm::encrypt` under a fresh cipher for `key`.
///
/// Fails exactly when the plaintext or the associated data is longer than 64 GiB.
/// Otherwise returns the ciphertext followed by the 16-byte tag, which `Aes256Gcm::decrypt`
/// under the same key, nonce and associated data turns back into the plaintext.
#[verifier::external_body]
fn aead_seal(
    key: &[u8; 32],
    nonce: &[u8; 12],
    aad: &[u8],
    plaintext: &[u8],
) -> (r: Result<Vec<u8>, aes_gcm::Error>)
    ensures
        r is Ok <==> (plaintext@.len() <= AEAD_MAX_INPUT && aad@.len() <= AEAD_MAX_INPUT),
        r matches Ok(sealed) ==> sealed@ == spec_aes256_gcm_seal(key@, nonce@, aad@, plaintext@),
        r matches Ok(sealed) ==> sealed@.len() == plaintext@.len() + TAG_SIZE,
        r matches Ok(sealed) ==> spec_aes256_gcm_open(key@, nonce@, aad@, sealed@) == Some(
            plaintext@,
        ),
{
    let cipher = aes_gcm::Aes256Gcm::new(key.into());
    cipher.encrypt(aes_gcm::Nonce::from_slice(nonce), Payload { msg: plaintext, aad })
}

/// `Aes256Gcm::decrypt` under a fresh cipher for `key`.
///
/// Returns the plaintext, 16 bytes shorter than its input, or an error where the input is
/// shorter than a tag or the tag does not match.
#[verifier::external_body]
fn aead_open(
    key: &[u8; 32],
    nonce: &[u8; 12],
    aad: &[u8],
    sealed: &[u8],
) -> (r: Result<Vec<u8>, aes_gcm::Error>)
    ensures
        r matches Ok(plaintext) ==> spec_aes256_gcm_open(key@, nonce@, aad@, sealed@) == Some(
            plaintext@,
        ),
        r matches Ok(plaintext) ==> plaintext@.len() + TAG_SIZE == sealed@.len(),
        r is Err ==> spec_aes256_gcm_open(key@, nonce@, aad@, sealed@) is None,
        sealed@.len() < TAG_SIZE ==> r is Err,
{
    let cipher = aes_gcm::Aes256Gcm::new(key.into());
    cipher.decrypt(aes_gcm::Nonce::from_slice(nonce), Payload { msg: sealed, aad })
}

/// `Hkdf::<Sha256>::new` with a salt, then `expand` to 32 bytes.
#[verifier::external_body]
fn hkdf_sha256(salt: &[u8], ikm: &[u8], info: &[u8]) -> (okm: [u8; 32])
    ensures
        okm@ == spec_hkdf_sha256(salt@, ikm@, info@),
{
    let mut okm = [0u8; 32];
    let hk = hkdf::Hkdf::<sha2::Sha256>::new(Some(salt), ikm);
    hk.expand(info, &mut okm).expect("32 bytes is a valid HKDF-SHA256 output length");
    okm
}

/// `Engine::decode` of base64's standard alphabet with padding.
#[verifier::external_body]
fn base64_decode(text: &str) -> (r: Result<Vec<u8>, base64::DecodeError>)
    ensures
        r matches Ok(bytes) ==> spec_base64_decode(text@) == Some(bytes@),
        r is Err ==> spec_base64_decode(text@) is None,
{
    base64::engine::general_purpose::STANDARD.decode(text)
}

/// `RngCore::fill_bytes` on the thread's generator: 32 bytes of which nothing is known.
#[verifier::external_body]
fn random_bytes_32() -> [u8; 32] {
    let mut out = [0u8; 32];
    rand::thread_rng().fill_bytes(&mut out);
    out
}

/// Sealing failed: the plaintext is longer than AES-GCM takes.
#[derive(Debug, Clone, Copy, PartialEq, Eq)]
pub struct EncryptError;

/// Why a sealed chunk or packet was not opened.
#[derive(Debug, Clone, Copy, PartialEq, Eq)]
pub enum DecryptError {
    /// Shorter than a nonce and a tag together.
    TooShort,
    /// The nonce in front is not the one its index demands.
    IvMismatch,
    /// The tag does not match: the bytes were damaged or forged.
    AuthFailed,
}

/// Why no key was derived.
#[derive(Debug, Clone, Copy, PartialEq, Eq)]
pub enum KeyError {
    /// The shared key is not base64 text.
    InvalidBase64,
}

impl EncryptError {
    /// The message for a person.
    pub fn message(&self) -> (text: String)
        ensures
            text@ == "encryption failed"@,
    {
        "encryption failed".to_string()
    }
}

impl DecryptError {
    /// The message for a person.
    pub fn message(&self) -> (text: String)
        ensures
            text@ == match *self {
                DecryptError::TooShort => "encrypted payload too short"@,
                DecryptError::IvMismatch => "IV does not match expected session/sequence"@,
                DecryptError::AuthFailed => "GCM authentication failed — data corrupted or tampered"@,
            },
    {
        match self {
            DecryptError::TooShort => "encrypted payload too short".to_string(),
            DecryptError::IvMismatch => "IV does not match expected session/sequence".to_string(),
            DecryptError::AuthFailed => "GCM authentication failed — data corrupted or tampered".to_string(),
        }
    }
}

/// The info string of the per-transfer key: the ASCII text `haven-file-`.
pub open spec fn spec_file_info_prefix() -> Seq<u8> {
    seq![0x68u8, 0x61, 0x76, 0x65, 0x6e, 0x2d, 0x66, 0x69, 0x6c, 0x65, 0x2d]
}

/// The info string of the packet key: the ASCII text `haven-transfer`.
pub open spec fn spec_packet_info() -> Seq<u8> {
    seq![0x68u8, 0x61, 0x76, 0x65, 0x6e, 0x2d, 0x74, 0x72, 0x61, 0x6e, 0x73, 0x66, 0x65, 0x72]
}

/// Thirty-two zero bytes, the fixed salt of the per-transfer key.
pub open spec fn spec_zero_salt() -> Seq<u8> {
    Seq::new(32, |i: int| 0u8)
}

/// The key of one transfer: HKDF-SHA256 of the master key under the zero salt, with the
/// info `haven-file-` followed by the transfer's identifier.
pub open spec fn spec_session_key(master_key: Seq<u8>, transfer_id: Seq<u8>) -> Seq<u8> {
    spec_hkdf_sha256(spec_zero_salt(), master_key, spec_file_info_prefix() + transfer_id)
}

/// The nonce of chunk `chunk_index`: eight zero bytes, then the index big-endian.
pub open spec fn spec_chunk_nonce(chunk_index: u32) -> Seq<u8> {
    Seq::new(8, |i: int| 0u8) + spec_be_u32(chunk_index)
}

/// The initialisation vector of a packet: session identifier, then sequence number, both
/// big-endian.
pub open spec fn spec_packet_iv(session_id: u32, sequence: u64) -> Seq<u8> {
    spec_be_u32(session_id) + spec_be_u64(sequence)
}

/// A chunk as stored and sent: its nonce, then the ciphertext and tag under that nonce,
/// with no associated data.
pub open spec fn spec_sealed_chunk(key: Seq<u8>, nonce: Seq<u8>, plaintext: Seq<u8>) -> Seq<u8> {
    nonce + spec_aes256_gcm_seal(key, nonce, Seq::<u8>::empty(), plaintext)
}

/// A packet payload as sent: its vector, then the ciphertext and tag under that vector,
/// with the vector as associated data.
pub open spec fn spec_sealed_packet(
    key: Seq<u8>,
    session_id: u32,
    sequence: u64,
    plaintext: Seq<u8>,
) -> Seq<u8> {
    let iv = spec_packet_iv(session_id, sequence);
    iv + spec_aes256_gcm_seal(key, iv, iv, plaintext)
}

/// Two chunks of one transfer never share a nonce.
pub proof fn lemma_chunk_nonce_injective(i: u32, j: u32)
    requires
        i != j,
    ensures
        spec_chunk_nonce(i) != spec_chunk_nonce(j),
        spec_chunk_nonce(i).len() == IV_SIZE,
{
    lemma_be_roundtrip(0, i, 0);
    lemma_be_roundtrip(0, j, 0);
    if spec_chunk_nonce(i) == spec_chunk_nonce(j) {
        assert(spec_chunk_nonce(i).subrange(8, 12) =~= spec_be_u32(i));
        assert(spec_chunk_nonce(j).subrange(8, 12) =~= spec_be_u32(j));
    }
}

/// Two packets never share a vector unless they share both session and sequence number.
pub proof fn lemma_packet_iv_injective(s1: u32, q1: u64, s2: u32, q2: u64)
    requires
        s1 != s2 || q1 != q2,
    ensures
        spec_packet_iv(s1, q1) != spec_packet_iv(s2, q2),
        spec_packet_iv(s1, q1).len() == IV_SIZE,
{
    lemma_be_roundtrip(0, s1, q1);
    lemma_be_roundtrip(0, s2, q2);
    if spec_packet_iv(s1, q1) == spec_packet_iv(s2, q2) {
        assert(spec_packet_iv(s1, q1).subrange(0, 4) =~= spec_be_u32(s1));
        assert(spec_packet_iv(s2, q2).subrange(0, 4) =~= spec_be_u32(s2));
        assert(spec_packet_iv(s1, q1).subrange(4, 12) =~= spec_be_u64(q1));
        assert(spec_packet_iv(s2, q2).subrange(4, 12) =~= spec_be_u64(q2));
    }
}

/// The nonce of chunk `chunk_index`.
pub fn make_nonce(chunk_index: u32) -> (nonce: [u8; 12])
    ensures
        nonce@ == spec_chunk_nonce(chunk_index),
{
    let mut nonce: [u8; 12] = [0u8; 12];
    put_be_u32(&mut nonce, 8, chunk_index);
    assert(nonce@ =~= spec_chunk_nonce(chunk_index));
    nonce
}

/// The initialisation vector of packet `sequence` of session `session_id`.
pub fn build_iv(session_id: u32, sequence: u64) -> (iv: [u8; 12])
    ensures
        iv@ == spec_packet_iv(session_id, sequence),
{
    let mut iv: [u8; 12] = [0u8; 12];
    put_be_u32(&mut iv, 0, session_id);
    put_be_u64(&mut iv, 4, sequence);
    assert(iv@ =~= spec_packet_iv(session_id, sequence));
    iv
}

/// The key of the transfer `transfer_id` under `master_key`.
pub fn derive_session_key(master_key: &[u8], transfer_id: &str) -> (key: [u8; 32])
    ensures
        key@ == spec_session_key(master_key@, transfer_id.spec_bytes()),
{
    let salt: [u8; 32] = [0u8; 32];
    let prefix: [u8; 11] = [0x68, 0x61, 0x76, 0x65, 0x6e, 0x2d, 0x66, 0x69, 0x6c, 0x65, 0x2d];
    let mut info: Vec<u8> = Vec::new();
    info.extend_from_slice(prefix.as_slice());
    info.extend_from_slice(transfer_id.as_bytes());
    assert(salt@ =~= spec_zero_salt());
    assert(info@ =~= spec_file_info_prefix() + transfer_id.spec_bytes());
    hkdf_sha256(salt.as_slice(), master_key, info.as_slice())
}

/// The key of the transfer `transfer_id` under a shared key given as base64 text.
pub fn derive_aes_key(channel_key_b64: &str, transfer_id: &str) -> (r: Result<[u8; 32], KeyError>)
    ensures
        match spec_base64_decode(channel_key_b64@) {
            Some(ikm) => r matches Ok(key) && key@ == spec_session_key(
                ikm,
                transfer_id.spec_bytes(),
            ),
            None => r == Err::<[u8; 32], KeyError>(KeyError::InvalidBase64),
        },
{
    match base64_decode(channel_key_b64) {
        Ok(ikm) => Ok(derive_session_key(ikm.as_slice(), transfer_id)),
        Err(_) => Err(KeyError::InvalidBase64),
    }
}

/// Seals `plaintext` under `nonce` and puts the nonce in front.
///
/// Fails exactly when the plaintext is longer than AES-GCM takes.
pub fn encrypt_chunk_with_nonce(key: &[u8; 32], plaintext: &[u8], nonce: [u8; 12]) -> (r: Result<
    Vec<u8>,
    EncryptError,
>)
    ensures
        r is Ok <==> plaintext@.len() <= AEAD_MAX_INPUT,
        r matches Ok(data) ==> {
            &&& data@ == spec_sealed_chunk(key@, nonce@, plaintext@)
            &&& data@.len() == plaintext@.len() + IV_SIZE + TAG_SIZE
        },
{
    let empty: [u8; 0] = [];
    match aead_seal(key, &nonce, empty.as_slice(), plaintext) {
        Ok(sealed) => {
            let mut data: Vec<u8> = Vec::new();
            data.extend_from_slice(nonce.as_slice());
            data.extend_from_slice(sealed.as_slice());
            assert(empty@ =~= Seq::<u8>::empty());
            Ok(data)
        },
        Err(_) => Err(EncryptError),
    }
}

/// Seals chunk `chunk_index` under the nonce of its index.
pub fn encrypt_chunk(key: &[u8; 32], plaintext: &[u8], chunk_index: u32) -> (r: Result<
    Vec<u8>,
    EncryptError,
>)
    ensures
        r is Ok <==> plaintext@.len() <= AEAD_MAX_INPUT,
        r matches Ok(data) ==> {
            &&& data@ == spec_sealed_chunk(key@, spec_chunk_nonce(chunk_index), plaintext@)
            &&& data@.len() == plaintext@.len() + IV_SIZE + TAG_SIZE
            &&& spec_open_chunk(key@, data@, chunk_index) == Ok::<Seq<u8>, DecryptError>(
                plaintext@,
            )
        },
{
    let nonce = make_nonce(chunk_index);
    let empty: [u8; 0] = [];
    match aead_seal(key, &nonce, empty.as_slice(), plaintext) {
        Ok(sealed) => {
            let mut data: Vec<u8> = Vec::new();
            data.extend_from_slice(nonce.as_slice());
            data.extend_from_slice(sealed.as_slice());
            proof {
                assert(empty@ =~= Seq::<u8>::empty());
                lemma_chunk_roundtrip(key@, chunk_index, plaintext@);
            }
            Ok(data)
        },
        Err(_) => Err(EncryptError),
    }
}

/// What opening the sealed chunk `data` as chunk `chunk_index` gives.
pub open spec fn spec_open_chunk(key: Seq<u8>, data: Seq<u8>, chunk_index: u32) -> Result<
    Seq<u8>,
    DecryptError,
> {
    if data.len() < IV_SIZE + TAG_SIZE {
        Err(DecryptError::TooShort)
    } else if data.subrange(0, IV_SIZE as int) != spec_chunk_nonce(chunk_index) {
        Err(DecryptError::IvMismatch)
    } else {
        match spec_aes256_gcm_open(
            key,
            spec_chunk_nonce(chunk_index),
            Seq::<u8>::empty(),
            data.subrange(IV_SIZE as int, data.len() as int),
        ) {
            Some(plaintext) => Ok(plaintext),
            None => Err(DecryptError::AuthFailed),
        }
    }
}

/// Opens a sealed chunk as chunk `chunk_index`.
///
/// The chunk opens only if the nonce in front of it is the one of `chunk_index` and the tag
/// matches the bytes.
pub fn decrypt_chunk(key: &[u8; 32], data: &[u8], chunk_index: u32) -> (r: Result<
    Vec<u8>,
    DecryptError,
>)
    ensures
        match spec_open_chunk(key@, data@, chunk_index) {
            Ok(plaintext) => r matches Ok(v) && v@ == plaintext && v@.len() + IV_SIZE + TAG_SIZE
                == data@.len(),
            Err(e) => r == Err::<Vec<u8>, DecryptError>(e),
        },
{
    if data.len() < IV_SIZE + TAG_SIZE {
        return Err(DecryptError::TooShort);
    }
    let nonce = make_nonce(chunk_index);
    if !bytes_eq(vstd::slice::slice_subrange(data, 0, IV_SIZE), nonce.as_slice()) {
        return Err(DecryptError::IvMismatch);
    }
    let empty: [u8; 0] = [];
    assert(empty@ =~= Seq::<u8>::empty());
    match aead_open(
        key,
        &nonce,
        empty.as_slice(),
        vstd::slice::slice_subrange(data, IV_SIZE, data.len()),
    ) {
        Ok(plaintext) => Ok(plaintext),
        Err(_) => Err(DecryptError::AuthFailed),
    }
}

/// A chunk that was sealed under a key and index opens under them to what it was made of.
pub proof fn lemma_chunk_roundtrip(key: Seq<u8>, chunk_index: u32, plaintext: Seq<u8>)
    requires
        spec_aes256_gcm_open(
            key,
            spec_chunk_nonce(chunk_index),
            Seq::<u8>::empty(),
            spec_aes256_gcm_seal(key, spec_chunk_nonce(chunk_index), Seq::<u8>::empty(), plaintext),
        ) == Some(plaintext),
        spec_aes256_gcm_seal(key, spec_chunk_nonce(chunk_index), Seq::<u8>::empty(), plaintext).len()
            == plaintext.len() + TAG_SIZE,
    ensures
        spec_open_chunk(
            key,
            spec_sealed_chunk(key, spec_chunk_nonce(chunk_index), plaintext),
            chunk_index,
        ) == Ok::<Seq<u8>, DecryptError>(plaintext),
{
    let nonce = spec_chunk_nonce(chunk_index);
    let body = spec_aes256_gcm_seal(key, nonce, Seq::<u8>::empty(), plaintext);
    let data = spec_sealed_chunk(key, nonce, plaintext);
    assert(data.subrange(0, IV_SIZE as int) =~= nonce);
    assert(data.subrange(IV_SIZE as int, data.len() as int) =~= body);
}

/// The sealing context of one packet stream: its 32-byte session key.
pub struct TransferCrypto {
    session_key: [u8; 32],
}

impl TransferCrypto {
    /// The session key.
    pub closed spec fn spec_key(&self) -> Seq<u8> {
        self.session_key@
    }

    /// The context whose key HKDF-SHA256 derives from `master_key` under `salt`, with the
    /// info `haven-transfer`.
    pub fn new(master_key: &[u8; 32], salt: &[u8; 32]) -> (r: Self)
        ensures
            r.spec_key() == spec_hkdf_sha256(salt@, master_key@, spec_packet_info()),
    {
        let info: [u8; 14] = [
            0x68, 0x61, 0x76, 0x65, 0x6e, 0x2d, 0x74, 0x72, 0x61, 0x6e, 0x73, 0x66, 0x65, 0x72,
        ];
        assert(info@ =~= spec_packet_info());
        TransferCrypto {
            session_key: hkdf_sha256(salt.as_slice(), master_key.as_slice(), info.as_slice()),
        }
    }

    /// The context of a session key that is already at hand.
    pub fn from_session_key(key: &[u8; 32]) -> (r: Self)
        ensures
            r.spec_key() == key@,
    {
        TransferCrypto { session_key: *key }
    }

    /// Seals one packet payload: vector, ciphertext, tag.
    ///
    /// Fails exactly when the plaintext is longer than AES-GCM takes.
    pub fn encrypt(&self, session_id: u32, sequence: u64, plaintext: &[u8]) -> (r: Result<
        Vec<u8>,
        EncryptError,
    >)
        ensures
            r is Ok <==> plaintext@.len() <= AEAD_MAX_INPUT,
            r matches Ok(out) ==> {
                &&& out@ == spec_sealed_packet(self.spec_key(), session_id, sequence, plaintext@)
                &&& out@.len() == plaintext@.len() + IV_SIZE + TAG_SIZE
                &&& self.spec_decrypt(session_id, sequence, out@) == Ok::<Seq<u8>, DecryptError>(
                    plaintext@,
                )
            },
    {
        let iv = build_iv(session_id, sequence);
        match aead_seal(&self.session_key, &iv, iv.as_slice(), plaintext) {
            Ok(sealed) => {
                let mut out: Vec<u8> = Vec::new();
                out.extend_from_slice(iv.as_slice());
                out.extend_from_slice(sealed.as_slice());
                proof {
                    assert(out@.subrange(0, IV_SIZE as int) =~= iv@);
                    assert(out@.subrange(IV_SIZE as int, out@.len() as int) =~= sealed@);
                }
                Ok(out)
            },
            Err(_) => Err(EncryptError),
        }
    }

    /// What opening `encrypted` as packet `sequence` of session `session_id` gives.
    pub open spec fn spec_decrypt(
        &self,
        session_id: u32,
        sequence: u64,
        encrypted: Seq<u8>,
    ) -> Result<Seq<u8>, DecryptError> {
        let iv = spec_packet_iv(session_id, sequence);
        if encrypted.len() < IV_SIZE + TAG_SIZE {
            Err(DecryptError::TooShort)
        } else if encrypted.subrange(0, IV_SIZE as int) != iv {
            Err(DecryptError::IvMismatch)
        } else {
            match spec_aes256_gcm_open(
                self.spec_key(),
                iv,
                iv,
                encrypted.subrange(IV_SIZE as int, encrypted.len() as int),
            ) {
                Some(plaintext) => Ok(plaintext),
                None => Err(DecryptError::AuthFailed),
            }
        }
    }

    /// Opens one packet payload.
    ///
    /// Both the vector in front and the tag are checked: a payload made for another session
    /// or sequence number is refused before the cipher is asked.
    pub fn decrypt(&self, session_id: u32, sequence: u64, encrypted: &[u8]) -> (r: Result<
        Vec<u8>,
        DecryptError,
    >)
        ensures
            match self.spec_decrypt(session_id, sequence, encrypted@) {
                Ok(plaintext) => r matches Ok(v) && v@ == plaintext && v@.len() + IV_SIZE
                    + TAG_SIZE == encrypted@.len(),
                Err(e) => r == Err::<Vec<u8>, DecryptError>(e),
            },
    {
        if encrypted.len() < IV_SIZE + TAG_SIZE {
            return Err(DecryptError::TooShort);
        }
        let expected_iv = build_iv(session_id, sequence);
        if !bytes_eq(vstd::slice::slice_subrange(encrypted, 0, IV_SIZE), expected_iv.as_slice()) {
            return Err(DecryptError::IvMismatch);
        }
        match aead_open(
            &self.session_key,
            &expected_iv,
            expected_iv.as_slice(),
            vstd::slice::slice_subrange(encrypted, IV_SIZE, encrypted.len()),
        ) {
            Ok(plaintext) => Ok(plaintext),
            Err(_) => Err(DecryptError::AuthFailed),
        }
    }

    /// Thirty-two bytes from the thread's random generator, to salt a key derivation.
    pub fn random_salt() -> [u8; 32] {
        random_bytes_32()
    }
}

} // verus!
