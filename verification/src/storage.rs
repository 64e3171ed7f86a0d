//! Store-and-forward mode: what the storage intermediary decides about the transfers it
//! holds. Reading requests and touching disk and database are left to the program around
//! it.

use vstd::prelude::*;
use crate::layout::{
    chunk_count, lemma_chunk_in_file, spec_chunk_count, spec_chunk_len, spec_chunk_offset,
};

verus! {

broadcast use vstd::slice::group_slice_axioms;

/// Chunk size of a transfer that does not declare one: 4 MiB.
pub const DEFAULT_CHUNK_SIZE: u64 = 4_194_304;

/// What a client sends to announce an upload.
pub struct CreateTransferRequest {
    pub id: String,
    pub file_size: u64,
    pub chunk_size: Option<u64>,
    pub file_sha256: String,
    pub chunk_hashes: Vec<String>,
}

/// What the server answers to an announcement it accepts.
pub struct CreateTransferResponse {
    pub id: String,
    pub chunk_count: usize,
}

/// What the server reports of a transfer.
pub struct TransferStatus {
    pub id: String,
    pub status: String,
    pub file_size: u64,
    pub bytes_received: u64,
    pub chunk_count: u64,
    pub created_at: String,
}

/// Where a transfer stands on the server.
#[derive(Debug, Clone, Copy, PartialEq, Eq, Structural)]
pub enum TransferPhase {
    Uploading,
    Complete,
    Confirmed,
    Expired,
}

impl TransferPhase {
    /// The word the database keeps for this phase.
    pub fn as_str(self) -> (word: &'static str)
        ensures
            word@ == match self {
                TransferPhase::Uploading => "uploading"@,
                TransferPhase::Complete => "complete"@,
                TransferPhase::Confirmed => "confirmed"@,
                TransferPhase::Expired => "expired"@,
            },
    {
        match self {
            TransferPhase::Uploading => "uploading",
            TransferPhase::Complete => "complete",
            TransferPhase::Confirmed => "confirmed",
            TransferPhase::Expired => "expired",
        }
    }
}

/// Where one chunk lies in the stored file.
#[derive(Debug, Clone, Copy, PartialEq, Eq, Structural)]
pub struct ChunkRow {
    pub chunk_index: u32,
    pub byte_offset: u64,
    pub byte_length: u64,
}

/// The answers the server gives, as HTTP knows them.
#[derive(Debug, Clone, Copy, PartialEq, Eq, Structural)]
pub enum Refusal {
    /// 400: the request contradicts itself or the transfer.
    BadRequest,
    /// 403: the caller is not the uploader.
    Forbidden,
    /// 409: the transfer no longer takes data.
    Conflict,
    /// 410: the transfer has expired.
    Gone,
    /// 416: nothing is stored at the start of the range.
    RangeNotSatisfiable,
}

/// The row of chunk `i` of a file.
pub open spec fn spec_chunk_row(i: int, file_size: u64, chunk_size: u64) -> ChunkRow {
    ChunkRow {
        chunk_index: i as u32,
        byte_offset: spec_chunk_offset(i, chunk_size as int) as u64,
        byte_length: spec_chunk_len(i, file_size as int, chunk_size as int) as u64,
    }
}

/// Lays out the chunks of an announced transfer.
///
/// The announcement is refused where its chunk size is zero, where the file needs more
/// chunks than 32 bits number, or where it does not carry exactly one hash for each chunk
/// of the file.
pub fn plan_transfer(req: &CreateTransferRequest) -> (r: Result<Vec<ChunkRow>, Refusal>)
    ensures
        ({
            let chunk_size = match req.chunk_size {
                Some(c) => c,
                None => DEFAULT_CHUNK_SIZE,
            };
            let fits = chunk_size > 0 && req.chunk_hashes@.len() == spec_chunk_count(
                req.file_size as int,
                chunk_size as int,
            ) && req.chunk_hashes@.len() <= u32::MAX;
            match r {
                Ok(rows) => {
                    &&& fits
                    &&& rows@.len() == req.chunk_hashes@.len()
                    &&& forall|i: int|
                        0 <= i < rows@.len() ==> #[trigger] rows@[i] == spec_chunk_row(
                            i,
                            req.file_size,
                            chunk_size,
                        )
                },
                Err(e) => e == Refusal::BadRequest && !fits,
            }
        }),
{
    let chunk_size: u64 = match req.chunk_size {
        Some(c) => c,
        None => DEFAULT_CHUNK_SIZE,
    };
    let expected: u32 = match chunk_count(req.file_size, chunk_size) {
        Ok(n) => n,
        Err(_) => {
            return Err(Refusal::BadRequest);
        },
    };
    if req.chunk_hashes.len() != expected as usize {
        return Err(Refusal::BadRequest);
    }
    let mut rows: Vec<ChunkRow> = Vec::new();
    let mut i: u32 = 0;
    while i < expected
        invariant
            chunk_size > 0,
            expected == spec_chunk_count(req.file_size as int, chunk_size as int),
            i <= expected,
            rows@.len() == i,
            forall|j: int|
                0 <= j < i ==> #[trigger] rows@[j] == spec_chunk_row(
                    j,
                    req.file_size,
                    chunk_size,
                ),
        decreases expected - i,
    {
        proof {
            lemma_chunk_in_file(i as int, req.file_size as int, chunk_size as int);
        }
        let offset: u64 = (i as u64) * chunk_size;
        let length: u64 = if i == expected - 1 {
            req.file_size - offset
        } else {
            chunk_size
        };
        rows.push(ChunkRow { chunk_index: i, byte_offset: offset, byte_length: length });
        i = i + 1;
    }
    Ok(rows)
}

/// What the server does with one uploaded chunk.
#[derive(Debug, Clone, Copy, PartialEq, Eq, Structural)]
pub enum UploadVerdict {
    /// The chunk is stored already: answer success and touch nothing.
    AlreadyReceived,
    /// Write the body at this offset of the stored file, then mark the chunk received.
    Write { offset: u64 },
    /// Answer with this refusal.
    Refuse { why: Refusal },
}

/// What is owed for an uploaded chunk: only the uploader may send it, only while the
/// transfer takes data; a chunk that is stored already is accepted again without a look
/// at its bytes; any other must have exactly the length laid out for it.
pub open spec fn spec_upload_verdict(
    is_uploader: bool,
    phase: TransferPhase,
    already_received: bool,
    body_len: int,
    row: ChunkRow,
) -> UploadVerdict {
    if !is_uploader {
        UploadVerdict::Refuse { why: Refusal::Forbidden }
    } else if phase != TransferPhase::Uploading {
        UploadVerdict::Refuse { why: Refusal::Conflict }
    } else if already_received {
        UploadVerdict::AlreadyReceived
    } else if body_len != row.byte_length {
        UploadVerdict::Refuse { why: Refusal::BadRequest }
    } else {
        UploadVerdict::Write { offset: row.byte_offset }
    }
}

/// Decides what to do with one uploaded chunk.
pub fn check_chunk_upload(
    uploader_id: &String,
    caller_id: &String,
    phase: TransferPhase,
    already_received: bool,
    body_len: usize,
    row: ChunkRow,
) -> (v: UploadVerdict)
    ensures
        v == spec_upload_verdict(
            uploader_id@ == caller_id@,
            phase,
            already_received,
            body_len as int,
            row,
        ),
{
    if *uploader_id != *caller_id {
        return UploadVerdict::Refuse { why: Refusal::Forbidden };
    }
    match phase {
        TransferPhase::Uploading => {},
        _ => {
            return UploadVerdict::Refuse { why: Refusal::Conflict };
        },
    }
    if already_received {
        return UploadVerdict::AlreadyReceived;
    }
    if body_len as u64 != row.byte_length {
        return UploadVerdict::Refuse { why: Refusal::BadRequest };
    }
    UploadVerdict::Write { offset: row.byte_offset }
}

/// Takes the first `len` bytes out of a stream buffer, once it holds that many.
///
/// A chunk is only ever hashed whole: while the buffer is short of `len` bytes, nothing
/// is taken.
pub fn take_chunk(buf: &mut Vec<u8>, len: usize) -> (r: Option<Vec<u8>>)
    ensures
        match r {
            Some(chunk) => {
                &&& old(buf)@.len() >= len
                &&& chunk@ == old(buf)@.subrange(0, len as int)
                &&& final(buf)@ == old(buf)@.subrange(len as int, old(buf)@.len() as int)
            },
            None => old(buf)@.len() < len && final(buf)@ == old(buf)@,
        },
{
    if buf.len() < len {
        return None;
    }
    let mut rest = buf.split_off(len);
    std::mem::swap(buf, &mut rest);
    Some(rest)
}

/// The part of a stored file that a download is served.
#[derive(Debug, Clone, Copy, PartialEq, Eq, Structural)]
pub struct ServedRange {
    /// First byte served.
    pub start: u64,
    /// Number of bytes served.
    pub length: u64,
    /// Whether the answer is a partial one, which it is when it does not start at zero.
    pub partial: bool,
    /// Bytes of the whole file, for the answer's range header.
    pub file_size: u64,
}

/// What a download is served: the bytes from `start` to the end of what is stored, which
/// is the whole file once the upload is complete and what has arrived before that.
pub open spec fn spec_serve_range(
    phase: TransferPhase,
    file_size: u64,
    bytes_received: u64,
    range_start: Option<u64>,
) -> Result<ServedRange, Refusal> {
    let start = match range_start {
        Some(s) => s,
        None => 0,
    };
    let available = if phase == TransferPhase::Complete {
        file_size
    } else {
        bytes_received
    };
    if phase == TransferPhase::Expired {
        Err(Refusal::Gone)
    } else if start >= available {
        Err(Refusal::RangeNotSatisfiable)
    } else {
        Ok(
            ServedRange {
                start,
                length: (available - start) as u64,
                partial: start > 0,
                file_size,
            },
        )
    }
}

/// Decides what a download is served.
pub fn serve_range(
    phase: TransferPhase,
    file_size: u64,
    bytes_received: u64,
    range_start: Option<u64>,
) -> (r: Result<ServedRange, Refusal>)
    ensures
        r == spec_serve_range(phase, file_size, bytes_received, range_start),
{
    match phase {
        TransferPhase::Expired => {
            return Err(Refusal::Gone);
        },
        _ => {},
    }
    let start: u64 = match range_start {
        Some(s) => s,
        None => 0,
    };
    let available: u64 = match phase {
        TransferPhase::Complete => file_size,
        _ => bytes_received,
    };
    if start >= available {
        return Err(Refusal::RangeNotSatisfiable);
    }
    Ok(ServedRange { start, length: available - start, partial: start > 0, file_size })
}

/// When a transfer created at `created_secs` expires: `retention_hours` later, if a 64-bit
/// count of seconds can say when.
pub fn expires_at(created_secs: u64, retention_hours: u64) -> (r: Option<u64>)
    ensures
        match r {
            Some(t) => t == created_secs + retention_hours * 3600,
            None => created_secs + retention_hours * 3600 > u64::MAX,
        },
{
    match retention_hours.checked_mul(3600) {
        Some(kept) => created_secs.checked_add(kept),
        None => None,
    }
}

/// Whether the cleanup task prunes a transfer: it has an expiry that has passed, and it
/// is not marked expired yet.
pub fn expiry_due(phase: TransferPhase, expires_at_secs: Option<u64>, now_secs: u64) -> (due: bool)
    ensures
        due == (phase != TransferPhase::Expired && expires_at_secs is Some
            && expires_at_secs->0 < now_secs),
{
    let marked = match phase {
        TransferPhase::Expired => true,
        _ => false,
    };
    match expires_at_secs {
        Some(t) => !marked && t < now_secs,
        None => false,
    }
}

/// Whether `caller_id` may delete a transfer: only its uploader may.
pub fn check_delete(uploader_id: &String, caller_id: &String) -> (r: Result<(), Refusal>)
    ensures
        r == if uploader_id@ == caller_id@ {
            Ok::<(), Refusal>(())
        } else {
            Err::<(), Refusal>(Refusal::Forbidden)
        },
{
    if *uploader_id == *caller_id {
        Ok(())
    } else {
        Err(Refusal::Forbidden)
    }
}

/// The number that a run of ASCII digits writes, if they are digits and the number fits
/// 64 bits.
pub open spec fn spec_decimal(digits: Seq<u8>) -> Option<u64>
    decreases digits.len(),
{
    if digits.len() == 0 {
        Some(0)
    } else {
        let last = digits.last();
        match spec_decimal(digits.drop_last()) {
            Some(high) => if 0x30 <= last <= 0x39 && high * 10 + (last - 0x30) <= u64::MAX {
                Some((high * 10 + (last - 0x30)) as u64)
            } else {
                None
            },
            None => None,
        }
    }
}

/// Where the first hyphen of `text` stands, or its length if it has none.
pub open spec fn spec_hyphen(text: Seq<u8>) -> int
    decreases text.len(),
{
    if text.len() == 0 || text[0] == 0x2d {
        0
    } else {
        1 + spec_hyphen(text.drop_first())
    }
}

/// The start of the range that a `Range` header asks for: the header must read `bytes=`,
/// then a number, then nothing or a hyphen and anything. The number may have a plus sign
/// in front.
pub open spec fn spec_range_start(header: Seq<u8>) -> Option<u64> {
    let prefix = seq![0x62u8, 0x79, 0x74, 0x65, 0x73, 0x3d];
    if header.len() < 6 || header.subrange(0, 6) != prefix {
        None
    } else {
        let rest = header.subrange(6, header.len() as int);
        let number = rest.subrange(0, spec_hyphen(rest));
        let digits = if number.len() > 0 && number[0] == 0x2b {
            number.drop_first()
        } else {
            number
        };
        if digits.len() == 0 {
            None
        } else {
            spec_decimal(digits)
        }
    }
}

/// Reads the start of the range out of a `Range` header.
#[verifier::loop_isolation(false)]
pub fn parse_range_start(header: &[u8]) -> (r: Option<u64>)
    ensures
        r == spec_range_start(header@),
{
    if header.len() < 6 {
        return None;
    }
    if header[0] != 0x62 || header[1] != 0x79 || header[2] != 0x74 || header[3] != 0x65
        || header[4] != 0x73 || header[5] != 0x3d {
        assert(header@.subrange(0, 6) != seq![0x62u8, 0x79, 0x74, 0x65, 0x73, 0x3d]) by {
            let p = header@.subrange(0, 6);
            assert(p[0] == header@[0] && p[1] == header@[1] && p[2] == header@[2] && p[3]
                == header@[3] && p[4] == header@[4] && p[5] == header@[5]);
        }
        return None;
    }
    assert(header@.subrange(0, 6) =~= seq![0x62u8, 0x79, 0x74, 0x65, 0x73, 0x3d]);
    let ghost rest = header@.subrange(6, header@.len() as int);
    let n: usize = header.len();
    // the end of the number: the first hyphen, or the end of the header
    let mut end: usize = 6;
    assert(rest.subrange(0, rest.len() as int) =~= rest);
    while end < n && header[end] != 0x2d
        invariant
            6 <= end <= n,
            n == header@.len(),
            rest == header@.subrange(6, header@.len() as int),
            spec_hyphen(rest) == (end - 6) + spec_hyphen(rest.subrange(end - 6, rest.len() as int)),
        decreases n - end,
    {
        proof {
            let tail = rest.subrange(end - 6, rest.len() as int);
            assert(tail[0] == header@[end as int]);
            assert(tail.drop_first() =~= rest.subrange(end - 6 + 1, rest.len() as int));
        }
        end = end + 1;
    }
    proof {
        let tail = rest.subrange(end - 6, rest.len() as int);
        if end < n {
            assert(tail[0] == header@[end as int]);
        }
        assert(spec_hyphen(tail) == 0);
        assert(spec_hyphen(rest) == end - 6);
    }
    let ghost number = rest.subrange(0, end - 6);
    let mut at: usize = 6;
    if at < end && header[at] == 0x2b {
        at = at + 1;
    }
    let ghost digits = if number.len() > 0 && number[0] == 0x2b {
        number.drop_first()
    } else {
        number
    };
    proof {
        if end > 6 {
            assert(number[0] == header@[6]);
        }
        assert(digits =~= header@.subrange(at as int, end as int));
    }
    if at == end {
        return None;
    }
    let first: usize = at;
    let mut value: u64 = 0;
    proof {
        assert(header@.subrange(first as int, first as int) =~= Seq::<u8>::empty());
    }
    while at < end
        invariant
            first <= at <= end <= n,
            n == header@.len(),
            spec_decimal(header@.subrange(first as int, at as int)) == Some(value),
        decreases end - at,
    {
        let c: u8 = header[at];
        proof {
            let next = header@.subrange(first as int, at + 1);
            assert(next.drop_last() =~= header@.subrange(first as int, at as int));
            assert(next.last() == c);
        }
        if c < 0x30 || c > 0x39 {
            proof {
                let all = header@.subrange(first as int, end as int);
                assert(all.subrange(0, at + 1 - first) =~= header@.subrange(
                    first as int,
                    at + 1,
                ));
                assert(spec_decimal(header@.subrange(first as int, at + 1)) is None);
                lemma_decimal_prefix(all, at + 1 - first);
            }
            return None;
        }
        let d: u64 = (c - 0x30) as u64;
        if value > (u64::MAX - d) / 10 {
            proof {
                let all = header@.subrange(first as int, end as int);
                assert(all.subrange(0, at + 1 - first) =~= header@.subrange(
                    first as int,
                    at + 1,
                ));
                assert(spec_decimal(header@.subrange(first as int, at + 1)) is None);
                lemma_decimal_prefix(all, at + 1 - first);
            }
            return None;
        }
        value = value * 10 + d;
        at = at + 1;
    }
    Some(value)
}

/// A run of digits writes no number if one of its beginnings writes none.
proof fn lemma_decimal_prefix(digits: Seq<u8>, k: int)
    requires
        0 <= k <= digits.len(),
        spec_decimal(digits.subrange(0, k)) is None,
    ensures
        spec_decimal(digits) is None,
    decreases digits.len(),
{
    if k < digits.len() {
        assert(digits.drop_last().subrange(0, k) =~= digits.subrange(0, k));
        lemma_decimal_prefix(digits.drop_last(), k);
    } else {
        assert(digits.subrange(0, k) =~= digits);
    }
}

} // verus!
