//! Chunk arithmetic for splitting a file into fixed-size upload chunks.

use vstd::prelude::*;

verus! {

/// Number of payload bytes carried by one upload or download chunk.
pub const CHUNK_SIZE: usize = 65536;

/// The number of chunks of `chunk_size` bytes needed to cover `file_size`
/// bytes: the ceiling of `file_size / chunk_size`.
pub open spec fn spec_chunk_count(file_size: u64, chunk_size: usize) -> int {
    (file_size as int + chunk_size as int - 1) / (chunk_size as int)
}

/// The number of bytes in the chunk that starts at `offset`: a full
/// `default_chunk_size`, or whatever remains of the file if less.
pub open spec fn spec_chunk_size(file_size: u64, offset: u64, default_chunk_size: usize) -> int {
    if default_chunk_size as int <= file_size - offset {
        default_chunk_size as int
    } else {
        file_size - offset
    }
}

pub struct ChunkManager;

impl ChunkManager {
    /// How many chunks of `chunk_size` bytes cover a file of `file_size` bytes.
    pub fn calculate_chunk_count(file_size: u64, chunk_size: usize) -> (r: usize)
        requires
            chunk_size > 0,
            file_size as int + chunk_size as int <= u64::MAX,
            spec_chunk_count(file_size, chunk_size) <= usize::MAX,
        ensures
            r == spec_chunk_count(file_size, chunk_size),
    {
        ((file_size + chunk_size as u64 - 1) / chunk_size as u64) as usize
    }

    /// The size of the chunk at `offset` in a file of `file_size` bytes.
    pub fn get_chunk_size(file_size: u64, offset: u64, default_chunk_size: usize) -> (r: usize)
        requires
            offset <= file_size,
        ensures
            r == spec_chunk_size(file_size, offset, default_chunk_size),
    {
        let remaining = file_size - offset;
        if default_chunk_size as u64 <= remaining {
            default_chunk_size
        } else {
            remaining as usize
        }
    }
}

} // verus!
