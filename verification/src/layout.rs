//! How a file is cut into chunks, and where each chunk lies.

use vstd::prelude::*;

verus! {

/// Why a file cannot be laid out.
#[derive(Debug, Clone, Copy, PartialEq, Eq)]
pub enum LayoutError {
    /// The chunk size is zero.
    ZeroChunkSize,
    /// The file needs more chunks than a 32-bit index can number.
    TooManyChunks,
}

/// Chunks of a file of `file_size` bytes: the size over the chunk size, rounded up; an
/// empty file still has one chunk, of length zero.
pub open spec fn spec_chunk_count(file_size: int, chunk_size: int) -> int
    recommends
        chunk_size > 0,
        file_size >= 0,
{
    if file_size == 0 {
        1
    } else {
        (file_size + chunk_size - 1) / chunk_size
    }
}

/// Where chunk `index` starts in the file.
pub open spec fn spec_chunk_offset(index: int, chunk_size: int) -> int {
    index * chunk_size
}

/// Bytes of chunk `index`: a full chunk, but for the last, which has what is left.
pub open spec fn spec_chunk_len(index: int, file_size: int, chunk_size: int) -> int {
    if index + 1 == spec_chunk_count(file_size, chunk_size) {
        file_size - index * chunk_size
    } else {
        chunk_size
    }
}

/// The division behind the chunk count, stated without division.
pub proof fn lemma_chunk_count_bounds(file_size: int, chunk_size: int)
    requires
        chunk_size > 0,
        file_size >= 0,
    ensures
        spec_chunk_count(file_size, chunk_size) >= 1,
        (spec_chunk_count(file_size, chunk_size) - 1) * chunk_size <= file_size,
        file_size <= spec_chunk_count(file_size, chunk_size) * chunk_size,
        file_size > 0 ==> (spec_chunk_count(file_size, chunk_size) - 1) * chunk_size < file_size,
{
    if file_size == 0 {
        assert(1 * chunk_size == chunk_size) by (nonlinear_arith);
        assert((1 - 1) * chunk_size == 0) by (nonlinear_arith);
    } else {
        let n = (file_size + chunk_size - 1) / chunk_size;
        assert(n * chunk_size <= file_size + chunk_size - 1 < (n + 1) * chunk_size)
            by (nonlinear_arith)
            requires
                n == (file_size + chunk_size - 1) / chunk_size,
                chunk_size > 0,
                file_size > 0,
        ;
        assert((n - 1) * chunk_size == n * chunk_size - chunk_size) by (nonlinear_arith);
        assert((n + 1) * chunk_size == n * chunk_size + chunk_size) by (nonlinear_arith);
        assert(n >= 1) by (nonlinear_arith)
            requires
                (n + 1) * chunk_size > file_size + chunk_size - 1,
                chunk_size > 0,
                file_size > 0,
        ;
    }
}

/// Every chunk lies inside the file, is no longer than the chunk size, and the last one
/// ends where the file ends.
pub proof fn lemma_chunk_in_file(index: int, file_size: int, chunk_size: int)
    requires
        chunk_size > 0,
        file_size >= 0,
        0 <= index < spec_chunk_count(file_size, chunk_size),
    ensures
        0 <= spec_chunk_len(index, file_size, chunk_size) <= chunk_size,
        0 <= spec_chunk_offset(index, chunk_size),
        spec_chunk_offset(index, chunk_size) + spec_chunk_len(index, file_size, chunk_size)
            <= file_size,
        index + 1 == spec_chunk_count(file_size, chunk_size) ==> spec_chunk_offset(
            index,
            chunk_size,
        ) + spec_chunk_len(index, file_size, chunk_size) == file_size,
        index + 1 < spec_chunk_count(file_size, chunk_size) ==> spec_chunk_offset(
            index,
            chunk_size,
        ) + spec_chunk_len(index, file_size, chunk_size) == spec_chunk_offset(
            index + 1,
            chunk_size,
        ),
{
    let n = spec_chunk_count(file_size, chunk_size);
    lemma_chunk_count_bounds(file_size, chunk_size);
    assert(0 <= index * chunk_size) by (nonlinear_arith)
        requires
            0 <= index,
            chunk_size > 0,
    ;
    assert((index + 1) * chunk_size == index * chunk_size + chunk_size) by (nonlinear_arith);
    if index + 1 < n {
        assert((index + 1) * chunk_size <= (n - 1) * chunk_size) by (nonlinear_arith)
            requires
                index + 1 <= n - 1,
                chunk_size > 0,
        ;
    } else {
        assert(n * chunk_size == (n - 1) * chunk_size + chunk_size) by (nonlinear_arith);
    }
}

/// Two different chunks never share a byte of the file, whatever their lengths, as long as
/// neither is longer than the chunk size.
pub proof fn lemma_chunks_disjoint(i: int, j: int, len_i: int, len_j: int, chunk_size: int)
    requires
        0 <= i,
        0 <= j,
        i != j,
        0 <= len_i <= chunk_size,
        0 <= len_j <= chunk_size,
    ensures
        spec_chunk_offset(i, chunk_size) + len_i <= spec_chunk_offset(j, chunk_size)
            || spec_chunk_offset(j, chunk_size) + len_j <= spec_chunk_offset(i, chunk_size),
{
    if i < j {
        assert((i + 1) * chunk_size <= j * chunk_size) by (nonlinear_arith)
            requires
                i + 1 <= j,
                chunk_size >= 0,
        ;
        assert((i + 1) * chunk_size == i * chunk_size + chunk_size) by (nonlinear_arith);
    } else {
        assert((j + 1) * chunk_size <= i * chunk_size) by (nonlinear_arith)
            requires
                j + 1 <= i,
                chunk_size >= 0,
        ;
        assert((j + 1) * chunk_size == j * chunk_size + chunk_size) by (nonlinear_arith);
    }
}

/// Number of chunks of a file.
///
/// Refuses a chunk size of zero, and a file that needs more chunks than a 32-bit index
/// numbers.
pub fn chunk_count(file_size: u64, chunk_size: u64) -> (r: Result<u32, LayoutError>)
    ensures
        match r {
            Ok(n) => chunk_size > 0 && n == spec_chunk_count(file_size as int, chunk_size as int),
            Err(LayoutError::ZeroChunkSize) => chunk_size == 0,
            Err(LayoutError::TooManyChunks) => chunk_size > 0 && spec_chunk_count(
                file_size as int,
                chunk_size as int,
            ) > u32::MAX,
        },
{
    if chunk_size == 0 {
        return Err(LayoutError::ZeroChunkSize);
    }
    if file_size == 0 {
        return Ok(1);
    }
    // (file_size + chunk_size - 1) / chunk_size, without the sum that could overflow
    let full: u64 = file_size / chunk_size;
    let rest: u64 = file_size % chunk_size;
    assert(rest != 0 ==> full < u64::MAX) by (nonlinear_arith)
        requires
            chunk_size > 0,
            full == file_size / chunk_size,
            rest == file_size % chunk_size,
    ;
    let count: u64 = if rest == 0 {
        full
    } else {
        full + 1
    };
    proof {
        let f = file_size as int;
        let c = chunk_size as int;
        assert((f + c - 1) / c == count) by (nonlinear_arith)
            requires
                c > 0,
                f > 0,
                full == f / c,
                rest == f % c,
                count == if rest == 0 {
                    full as int
                } else {
                    full + 1
                },
        ;
    }
    if count > u32::MAX as u64 {
        return Err(LayoutError::TooManyChunks);
    }
    Ok(count as u32)
}

/// Where chunk `index` starts, if that is a place a 64-bit offset can name.
pub fn chunk_offset(index: u32, chunk_size: u64) -> (r: Option<u64>)
    ensures
        match r {
            Some(offset) => offset == spec_chunk_offset(index as int, chunk_size as int),
            None => spec_chunk_offset(index as int, chunk_size as int) > u64::MAX,
        },
{
    (index as u64).checked_mul(chunk_size)
}

/// Bytes of chunk `index` of a file cut into `count` chunks.
pub fn chunk_len(index: u32, count: u32, file_size: u64, chunk_size: u64) -> (len: u64)
    requires
        chunk_size > 0,
        count == spec_chunk_count(file_size as int, chunk_size as int),
        index < count,
    ensures
        len == spec_chunk_len(index as int, file_size as int, chunk_size as int),
        len <= chunk_size,
{
    proof {
        lemma_chunk_in_file(index as int, file_size as int, chunk_size as int);
    }
    if index == count - 1 {
        file_size - (index as u64) * chunk_size
    } else {
        chunk_size
    }
}

} // verus!
