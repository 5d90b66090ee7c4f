//! Per-stream metadata: identity, cursor, timestamps, lifecycle status,
//! and the handle to the stream's mapped cache file.

use crate::memory_mapped_cache::CacheModel;
use crate::memory_mapped_cache::MemoryMappedCache;
use vstd::prelude::*;

verus! {

/// Lifecycle of a stream: it uploads, then is finalized (`Ready`), or
/// fails for good (`Error`).
#[derive(Debug, Clone, Copy, PartialEq, Eq, Structural)]
pub enum StreamStatus {
    Uploading,
    Ready,
    Error,
}

impl StreamStatus {
    /// The status name as it is reported.
    pub fn as_str(&self) -> (r: &'static str)
        ensures
            self is Uploading ==> r@ == "UPLOADING"@,
            self is Ready ==> r@ == "READY"@,
            self is Error ==> r@ == "ERROR"@,
    {
        match self {
            StreamStatus::Uploading => "UPLOADING",
            StreamStatus::Ready => "READY",
            StreamStatus::Error => "ERROR",
        }
    }
}

/// The abstract state of one stream context.
#[verifier::ext_equal]
pub ghost struct ContextModel {
    /// The stream's identifier; immutable after creation.
    pub stream_id: Seq<char>,
    /// Path of the stream's cache file; immutable after creation.
    pub cache_path: Seq<char>,
    /// The stream's cache file, if one has been attached.
    pub cache: Option<CacheModel>,
    /// Next offset an appended chunk is written at.
    pub current_offset: u64,
    /// Total bytes the stream carries; tracks the cursor while uploading
    /// and is frozen by finalization.
    pub total_size: u64,
    /// When the stream was created (milliseconds of wall-clock time).
    pub created_at: u64,
    /// When the stream was last created, read, written or looked up.
    pub last_accessed_at: u64,
    /// Lifecycle status.
    pub status: StreamStatus,
}

/// Metadata and cache handle for a single stream.
pub struct StreamContext {
    pub stream_id: String,
    pub cache_path: String,
    pub mmap_file: Option<MemoryMappedCache>,
    pub current_offset: u64,
    pub total_size: u64,
    pub created_at: u64,
    pub last_accessed_at: u64,
    pub status: StreamStatus,
}

impl View for StreamContext {
    type V = ContextModel;

    open spec fn view(&self) -> ContextModel {
        ContextModel {
            stream_id: self.stream_id@,
            cache_path: self.cache_path@,
            cache: match self.mmap_file {
                Some(c) => Some(c@),
                None => None,
            },
            current_offset: self.current_offset,
            total_size: self.total_size,
            created_at: self.created_at,
            last_accessed_at: self.last_accessed_at,
            status: self.status,
        }
    }
}

impl StreamContext {
    /// A fresh context in `Uploading` state with both timestamps at `now_ms`
    /// and no cache attached yet.
    pub fn new(stream_id: String, cache_path: String, now_ms: u64) -> (r: Self)
        ensures
            r@ == (ContextModel {
                stream_id: stream_id@,
                cache_path: cache_path@,
                cache: None,
                current_offset: 0,
                total_size: 0,
                created_at: now_ms,
                last_accessed_at: now_ms,
                status: StreamStatus::Uploading,
            }),
    {
        StreamContext {
            stream_id,
            cache_path,
            mmap_file: None,
            current_offset: 0,
            total_size: 0,
            created_at: now_ms,
            last_accessed_at: now_ms,
            status: StreamStatus::Uploading,
        }
    }

    /// Record an access at `now_ms`.
    pub fn update_access_time(&mut self, now_ms: u64)
        ensures
            final(self)@ == (ContextModel { last_accessed_at: now_ms, ..old(self)@ }),
    {
        self.last_accessed_at = now_ms;
    }

    /// The stream's identifier.
    pub fn get_stream_id(&self) -> (r: &str)
        ensures
            r@ == self@.stream_id,
    {
        self.stream_id.as_str()
    }

    /// Path of the stream's cache file.
    pub fn get_cache_path(&self) -> (r: &str)
        ensures
            r@ == self@.cache_path,
    {
        self.cache_path.as_str()
    }

    /// Next offset an appended chunk is written at.
    pub fn get_current_offset(&self) -> (r: u64)
        ensures
            r == self@.current_offset,
    {
        self.current_offset
    }

    /// Move the write cursor.
    pub fn set_current_offset(&mut self, offset: u64)
        ensures
            final(self)@ == (ContextModel { current_offset: offset, ..old(self)@ }),
    {
        self.current_offset = offset;
    }

    /// Total bytes the stream carries.
    pub fn get_total_size(&self) -> (r: u64)
        ensures
            r == self@.total_size,
    {
        self.total_size
    }

    /// Set the total byte count.
    pub fn set_total_size(&mut self, size: u64)
        ensures
            final(self)@ == (ContextModel { total_size: size, ..old(self)@ }),
    {
        self.total_size = size;
    }

    /// When the stream was created.
    pub fn get_created_at(&self) -> (r: u64)
        ensures
            r == self@.created_at,
    {
        self.created_at
    }

    /// When the stream was last accessed.
    pub fn get_last_accessed_at(&self) -> (r: u64)
        ensures
            r == self@.last_accessed_at,
    {
        self.last_accessed_at
    }

    /// The stream's lifecycle status.
    pub fn get_status(&self) -> (r: StreamStatus)
        ensures
            r == self@.status,
    {
        self.status
    }

    /// Set the lifecycle status.
    pub fn set_status(&mut self, status: StreamStatus)
        ensures
            final(self)@ == (ContextModel { status: status, ..old(self)@ }),
    {
        self.status = status;
    }

    /// The stream's cache file handle, if one is attached.
    pub fn get_mmap_file(&self) -> (r: Option<&MemoryMappedCache>)
        ensures
            match r {
                Some(c) => self@.cache == Some(c@),
                None => self@.cache is None,
            },
    {
        self.mmap_file.as_ref()
    }

    /// Attach or detach the stream's cache file.
    pub fn set_mmap_file(&mut self, file: Option<MemoryMappedCache>)
        ensures
            final(self)@ == (ContextModel {
                cache: match file {
                    Some(c) => Some(c@),
                    None => None,
                },
                ..old(self)@
            }),
    {
        self.mmap_file = file;
    }
}

} // verus!
