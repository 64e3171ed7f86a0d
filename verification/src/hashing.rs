//! SHA-256 digests and their hexadecimal text.

use vstd::prelude::*;
use sha2::Digest;

verus! {

broadcast use {vstd::slice::group_slice_axioms, vstd::array::group_array_axioms};

/// Bytes of a SHA-256 digest.
pub const SHA256_LEN: usize = 32;

/// The SHA-256 digest of `data`.
pub uninterp spec fn spec_sha256(data: Seq<u8>) -> Seq<u8>;

/// The bytes a hasher has absorbed since it was made.
pub uninterp spec fn spec_absorbed(h: FileHasher) -> Seq<u8>;

/// A running SHA-256 computation over a stream of bytes.
///
/// Holds the hasher of the `sha2` crate; what is known of it is the stream it has
/// absorbed, `self@`.
#[verifier::external_body]
pub struct FileHasher {
    inner: sha2::Sha256,
}

impl View for FileHasher {
    type V = Seq<u8>;

    open spec fn view(&self) -> Seq<u8> {
        spec_absorbed(*self)
    }
}

/// `sha2::Sha256::new`: a hasher that has absorbed nothing.
#[verifier::external_body]
fn hasher_new() -> (h: FileHasher)
    ensures
        spec_absorbed(h) == Seq::<u8>::empty(),
{
    FileHasher { inner: sha2::Sha256::new() }
}

/// `sha2::Digest::update`: the hasher absorbs `data` behind what it absorbed before.
#[verifier::external_body]
fn hasher_update(h: &mut FileHasher, data: &[u8])
    ensures
        spec_absorbed(*final(h)) == spec_absorbed(*old(h)) + data@,
{
    h.inner.update(data);
}

/// `sha2::Digest::finalize`: the 32-byte SHA-256 digest of everything absorbed.
#[verifier::external_body]
fn hasher_finalize(h: FileHasher) -> (digest: [u8; 32])
    ensures
        digest@ == spec_sha256(spec_absorbed(h)),
{
    h.inner.finalize().into()
}

impl FileHasher {
    /// A hasher over the empty stream.
    pub fn new() -> (h: Self)
        ensures
            h@ == Seq::<u8>::empty(),
    {
        hasher_new()
    }

    /// Appends `data` to the stream.
    pub fn update(&mut self, data: &[u8])
        ensures
            final(self)@ == old(self)@ + data@,
    {
        hasher_update(self, data)
    }

    /// The digest of the whole stream.
    pub fn finish(self) -> (digest: [u8; 32])
        ensures
            digest@ == spec_sha256(self@),
    {
        hasher_finalize(self)
    }

    /// The digest of the whole stream, as hexadecimal text.
    pub fn finish_hex(self) -> (text: String)
        ensures
            text@ == spec_hex(spec_sha256(self@)),
    {
        let digest = hasher_finalize(self);
        hex_encode(digest.as_slice())
    }
}

/// The SHA-256 digest of `data`.
pub fn sha256(data: &[u8]) -> (digest: [u8; 32])
    ensures
        digest@ == spec_sha256(data@),
{
    let mut h = FileHasher::new();
    h.update(data);
    assert(Seq::<u8>::empty() + data@ =~= data@);
    h.finish()
}

/// The sixteen lower-case hexadecimal digits.
pub open spec fn spec_hex_digits() -> Seq<char> {
    seq!['0', '1', '2', '3', '4', '5', '6', '7', '8', '9', 'a', 'b', 'c', 'd', 'e', 'f']
}

/// Lower-case hexadecimal text of `data`: two digits a byte, the high half first.
pub open spec fn spec_hex(data: Seq<u8>) -> Seq<char> {
    Seq::new(
        2 * data.len(),
        |i: int|
            if i % 2 == 0 {
                spec_hex_digits()[data[i / 2] as int / 16]
            } else {
                spec_hex_digits()[data[i / 2] as int % 16]
            },
    )
}

/// What the ASCII character `c` is worth as a hexadecimal digit, in either case.
pub open spec fn spec_hex_value(c: u8) -> Option<u8> {
    if 0x30 <= c <= 0x39 {
        Some((c - 0x30) as u8)
    } else if 0x61 <= c <= 0x66 {
        Some((c - 0x61 + 10) as u8)
    } else if 0x41 <= c <= 0x46 {
        Some((c - 0x41 + 10) as u8)
    } else {
        None
    }
}

/// `text` is hexadecimal: an even number of digits and nothing else.
pub open spec fn spec_is_hex(text: Seq<u8>) -> bool {
    &&& text.len() % 2 == 0
    &&& forall|i: int| 0 <= i < text.len() ==> spec_hex_value(#[trigger] text[i]) is Some
}

/// The bytes that the hexadecimal `text` stands for.
pub open spec fn spec_unhex(text: Seq<u8>) -> Seq<u8>
    recommends
        spec_is_hex(text),
{
    Seq::new(
        text.len() / 2,
        |i: int|
            (spec_hex_value(text[2 * i])->0 as int * 16 + spec_hex_value(text[2 * i + 1])->0) as u8,
    )
}

/// `hex::encode`: the lower-case hexadecimal text of `data`.
#[verifier::external_body]
pub(crate) fn hex_encode(data: &[u8]) -> (text: String)
    ensures
        text@ == spec_hex(data@),
{
    hex::encode(data)
}

/// `hex::decode`: the bytes of a hexadecimal text, or an error when the text has an odd
/// length or a character that is no hexadecimal digit.
#[verifier::external_body]
pub(crate) fn hex_decode(text: &[u8]) -> (r: Result<Vec<u8>, hex::FromHexError>)
    ensures
        r is Ok <==> spec_is_hex(text@),
        r matches Ok(bytes) ==> bytes@ == spec_unhex(text@),
{
    hex::decode(text)
}

/// The error of `hex::decode`.
#[verifier::external_type_specification]
#[verifier::external_body]
pub struct ExFromHexError(hex::FromHexError);

/// The SHA-256 digest of `data` as hexadecimal text.
pub fn sha256_hex(data: &[u8]) -> (text: String)
    ensures
        text@ == spec_hex(spec_sha256(data@)),
{
    let digest = sha256(data);
    hex_encode(digest.as_slice())
}

/// Whether the stream a hasher has absorbed has the SHA-256 that `expected` declares in
/// hexadecimal text.
pub fn stream_matches(hasher: FileHasher, expected: &String) -> (ok: bool)
    ensures
        ok == (expected@ == spec_hex(spec_sha256(hasher@))),
{
    hasher.finish_hex() == *expected
}

/// Whether `data` has the SHA-256 that `expected` declares in hexadecimal text.
///
/// The comparison is of texts: a declaration in upper case matches nothing.
pub fn hash_matches(data: &[u8], expected: &String) -> (ok: bool)
    ensures
        ok == (expected@ == spec_hex(spec_sha256(data@))),
{
    sha256_hex(data) == *expected
}

} // verus!
