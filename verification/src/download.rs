//! The receiving end of store-and-forward mode: the sealed chunks come in order over a
//! reliable stream, and each is verified against the offer before it is opened.

use vstd::prelude::*;
use crate::crypto::{decrypt_chunk, spec_open_chunk, DecryptError};
use crate::hashing::{hash_matches, spec_hex, spec_sha256, FileHasher};
use crate::protocol::ENCRYPTED_CHUNK_SIZE;

verus! {

broadcast use {vstd::slice::group_slice_axioms, vstd::array::group_array_axioms};

/// Why a download is not accepted.
#[derive(Debug, Clone, Copy, PartialEq, Eq)]
pub enum VerifyError {
    /// More chunks arrived than the offer declares.
    UnexpectedChunk,
    /// A chunk's SHA-256 is not the one the offer declares for it.
    ChunkHashMismatch,
    /// A chunk has the declared hash but does not open.
    Decrypt(DecryptError),
    /// The stream ended before every declared chunk had arrived.
    MissingChunks,
    /// The SHA-256 of the whole sealed stream is not the one the offer declares.
    FileHashMismatch,
}

/// Where sealed chunk `index` lies in the stored stream when every chunk before it is a
/// full one: first and last byte, as an HTTP range names them.
pub fn chunk_byte_range(index: u32) -> (r: (u64, u64))
    ensures
        r.0 == index * ENCRYPTED_CHUNK_SIZE,
        r.1 == r.0 + ENCRYPTED_CHUNK_SIZE - 1,
{
    let start: u64 = (index as u64) * (ENCRYPTED_CHUNK_SIZE as u64);
    (start, start + (ENCRYPTED_CHUNK_SIZE as u64 - 1))
}

/// Checks the chunks of a download against the offer, in order, and opens them.
pub struct ChunkVerifier {
    key: [u8; 32],
    chunk_hashes: Vec<String>,
    file_sha256: String,
    next: usize,
    hasher: FileHasher,
}

impl ChunkVerifier {
    /// The session key.
    pub closed spec fn spec_key(&self) -> Seq<u8> {
        self.key@
    }

    /// The hash the offer declares for each chunk.
    pub closed spec fn spec_hashes(&self) -> Seq<Seq<char>> {
        Seq::new(self.chunk_hashes@.len(), |i: int| self.chunk_hashes@[i]@)
    }

    /// The hash the offer declares for the whole sealed stream.
    pub closed spec fn spec_file_hash(&self) -> Seq<char> {
        self.file_sha256@
    }

    /// Number of chunks accepted so far.
    pub closed spec fn spec_accepted(&self) -> int {
        self.next as int
    }

    /// The sealed bytes of the chunks accepted so far, one after another.
    pub closed spec fn spec_stream(&self) -> Seq<u8> {
        self.hasher@
    }

    /// No more chunks are accepted than declared.
    pub closed spec fn wf(&self) -> bool {
        self.next <= self.chunk_hashes@.len()
    }

    /// A verifier that has accepted nothing.
    pub fn new(key: [u8; 32], chunk_hashes: Vec<String>, file_sha256: String) -> (v: Self)
        ensures
            v.wf(),
            v.spec_key() == key@,
            v.spec_hashes() == Seq::new(chunk_hashes@.len(), |i: int| chunk_hashes@[i]@),
            v.spec_file_hash() == file_sha256@,
            v.spec_accepted() == 0,
            v.spec_stream() == Seq::<u8>::empty(),
    {
        ChunkVerifier { key, chunk_hashes, file_sha256, next: 0, hasher: FileHasher::new() }
    }

    /// What is owed for the next sealed chunk: it must be declared, have the declared
    /// hash, and open under the nonce of its index.
    pub open spec fn spec_open_next(&self, sealed: Seq<u8>) -> Result<Seq<u8>, VerifyError> {
        if self.spec_accepted() >= self.spec_hashes().len() {
            Err(VerifyError::UnexpectedChunk)
        } else if self.spec_hashes()[self.spec_accepted()] != spec_hex(spec_sha256(sealed)) {
            Err(VerifyError::ChunkHashMismatch)
        } else {
            match spec_open_chunk(self.spec_key(), sealed, self.spec_accepted() as u32) {
                Ok(plaintext) => Ok(plaintext),
                Err(e) => Err(VerifyError::Decrypt(e)),
            }
        }
    }

    /// Verifies and opens the next sealed chunk of the stream.
    ///
    /// A chunk that is refused leaves the verifier as it was.
    pub fn open_next(&mut self, sealed: &[u8]) -> (r: Result<Vec<u8>, VerifyError>)
        requires
            old(self).wf(),
            old(self).spec_hashes().len() <= u32::MAX,
        ensures
            final(self).wf(),
            final(self).spec_key() == old(self).spec_key(),
            final(self).spec_hashes() == old(self).spec_hashes(),
            final(self).spec_file_hash() == old(self).spec_file_hash(),
            match old(self).spec_open_next(sealed@) {
                Ok(plaintext) => {
                    &&& r matches Ok(p) && p@ == plaintext
                    &&& final(self).spec_accepted() == old(self).spec_accepted() + 1
                    &&& final(self).spec_stream() == old(self).spec_stream() + sealed@
                },
                Err(e) => {
                    &&& r == Err::<Vec<u8>, VerifyError>(e)
                    &&& final(self).spec_accepted() == old(self).spec_accepted()
                    &&& final(self).spec_stream() == old(self).spec_stream()
                },
            },
    {
        if self.next >= self.chunk_hashes.len() {
            return Err(VerifyError::UnexpectedChunk);
        }
        if !hash_matches(sealed, &self.chunk_hashes[self.next]) {
            return Err(VerifyError::ChunkHashMismatch);
        }
        match decrypt_chunk(&self.key, sealed, self.next as u32) {
            Ok(plaintext) => {
                self.hasher.update(sealed);
                self.next = self.next + 1;
                Ok(plaintext)
            },
            Err(e) => Err(VerifyError::Decrypt(e)),
        }
    }

    /// Ends the download: every declared chunk must have arrived, and the SHA-256 of the
    /// whole sealed stream must be the declared one.
    pub fn finish(self) -> (r: Result<(), VerifyError>)
        requires
            self.wf(),
        ensures
            r == if self.spec_accepted() < self.spec_hashes().len() {
                Err::<(), VerifyError>(VerifyError::MissingChunks)
            } else if self.spec_file_hash() != spec_hex(spec_sha256(self.spec_stream())) {
                Err::<(), VerifyError>(VerifyError::FileHashMismatch)
            } else {
                Ok::<(), VerifyError>(())
            },
    {
        if self.next < self.chunk_hashes.len() {
            return Err(VerifyError::MissingChunks);
        }
        let actual = self.hasher.finish_hex();
        if actual != self.file_sha256 {
            return Err(VerifyError::FileHashMismatch);
        }
        Ok(())
    }
}

} // verus!
