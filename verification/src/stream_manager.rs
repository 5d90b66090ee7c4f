//! The stream registry: id-keyed contexts, each owning its cache file.
//!
//! The registry creates streams, routes chunk writes to the owning cache
//! at the stream's write cursor, serves range reads, finalizes uploads,
//! and evicts streams that have not been touched for too long.  Wall-clock
//! time enters every operation as an explicit millisecond count.

use crate::memory_mapped_cache::spec_create;
use crate::memory_mapped_cache::spec_read;
use crate::memory_mapped_cache::spec_resize;
use crate::memory_mapped_cache::spec_write;
use crate::memory_mapped_cache::CacheModel;
use crate::memory_mapped_cache::MemoryMappedCache;
use crate::stream_context::ContextModel;
use crate::stream_context::StreamContext;
use crate::stream_context::StreamStatus;
use crate::text::str_eq;
use vstd::prelude::*;

verus! {

/// The cache file of stream `id` lives at `{dir}/{id}.cache`.
pub open spec fn spec_cache_path(dir: Seq<char>, id: Seq<char>) -> Seq<char> {
    dir + "/"@ + id + ".cache"@
}

/// Index of the first context with identifier `id`, or `-1` if there is
/// none.
pub open spec fn find_stream(s: Seq<ContextModel>, id: Seq<char>) -> int
    decreases s.len(),
{
    if s.len() == 0 {
        -1
    } else if s[0].stream_id == id {
        0
    } else {
        let r = find_stream(s.drop_first(), id);
        if r == -1 {
            -1
        } else {
            r + 1
        }
    }
}

/// What `find_stream` returns: `-1` exactly when no context carries the
/// id, and otherwise the first index that does.
pub proof fn lemma_find_stream_props(s: Seq<ContextModel>, id: Seq<char>)
    ensures
        find_stream(s, id) == -1 ==> forall|i: int| 0 <= i < s.len() ==> s[i].stream_id != id,
        find_stream(s, id) != -1 ==> {
            &&& 0 <= find_stream(s, id) < s.len()
            &&& s[find_stream(s, id)].stream_id == id
            &&& forall|j: int| 0 <= j < find_stream(s, id) ==> s[j].stream_id != id
        },
    decreases s.len(),
{
    if s.len() > 0 {
        lemma_find_stream_props(s.drop_first(), id);
        if s[0].stream_id != id {
            assert forall|i: int| 1 <= i < s.len() implies s.drop_first()[i - 1] == s[i] by {}
        }
    }
}

/// `find_stream` returns `k` whenever `k` is the first index carrying `id`.
pub proof fn lemma_find_stream_first(s: Seq<ContextModel>, id: Seq<char>, k: int)
    requires
        0 <= k < s.len(),
        s[k].stream_id == id,
        forall|j: int| 0 <= j < k ==> s[j].stream_id != id,
    ensures
        find_stream(s, id) == k,
    decreases s.len(),
{
    if k > 0 {
        assert(s[0].stream_id != id);
        assert forall|i: int| 1 <= i < s.len() implies s.drop_first()[i - 1] == s[i] by {}
        lemma_find_stream_first(s.drop_first(), id, k - 1);
    }
}

/// The abstract state of the registry.
#[verifier::ext_equal]
pub ghost struct ManagerModel {
    /// Directory the cache files live in.
    pub cache_directory: Seq<char>,
    /// The registered streams, in insertion order.
    pub streams: Seq<ContextModel>,
}

/// What the registry guarantees of one of its contexts: the cache is
/// attached, open and well-formed, lives at the derived path, its mapped
/// length equals the write cursor, the total tracks the cursor, and the
/// status is a live one.
pub open spec fn ctx_wf(dir: Seq<char>, c: ContextModel) -> bool {
    &&& c.cache matches Some(cm)
    &&& c.cache.unwrap().wf()
    &&& c.cache.unwrap().is_open
    &&& c.cache.unwrap().path == c.cache_path
    &&& c.cache_path == spec_cache_path(dir, c.stream_id)
    &&& c.cache.unwrap().size == c.current_offset
    &&& c.total_size == c.current_offset
    &&& c.current_offset <= usize::MAX
    &&& (c.status is Uploading || c.status is Ready)
}

/// Every context is well-formed and stream ids are unique.
pub open spec fn streams_wf(dir: Seq<char>, s: Seq<ContextModel>) -> bool {
    &&& (forall|i: int| 0 <= i < s.len() ==> ctx_wf(dir, #[trigger] s[i]))
    &&& (forall|i: int, j: int| 0 <= i < j < s.len() ==> s[i].stream_id != s[j].stream_id)
}

impl ManagerModel {
    /// What the registry guarantees of one of its contexts.
    pub open spec fn ctx_wf(self, c: ContextModel) -> bool {
        ctx_wf(self.cache_directory, c)
    }

    /// Every context is well-formed and stream ids are unique.
    pub open spec fn wf(self) -> bool {
        streams_wf(self.cache_directory, self.streams)
    }

    /// Whether a stream with identifier `id` is registered.
    pub open spec fn has_stream(self, id: Seq<char>) -> bool {
        find_stream(self.streams, id) != -1
    }

    /// The context registered under `id`.
    pub open spec fn stream_at(self, id: Seq<char>) -> ContextModel {
        self.streams[find_stream(self.streams, id)]
    }

    /// The payload bytes stream `id` holds: the bytes of its cache file.
    pub open spec fn stream_data(self, id: Seq<char>) -> Seq<u8> {
        self.stream_at(id).cache.unwrap().bytes()
    }
}

/// The context `create_stream` registers: fresh timestamps, `Uploading`
/// status, and an empty, open cache file at the derived path.
pub open spec fn fresh_context(dir: Seq<char>, id: Seq<char>, now: u64) -> ContextModel {
    ContextModel {
        stream_id: id,
        cache_path: spec_cache_path(dir, id),
        cache: Some(
            spec_create(
                CacheModel { path: spec_cache_path(dir, id), file: None, size: 0, is_open: false },
                0,
            ),
        ),
        current_offset: 0,
        total_size: 0,
        created_at: now,
        last_accessed_at: now,
        status: StreamStatus::Uploading,
    }
}

/// `create_stream`: a duplicate id fails and leaves the registry
/// untouched; otherwise a fresh context is appended.
pub open spec fn spec_create_stream(m: ManagerModel, id: Seq<char>, now: u64) -> (ManagerModel, bool) {
    if find_stream(m.streams, id) != -1 {
        (m, false)
    } else {
        (
            ManagerModel { streams: m.streams.push(fresh_context(m.cache_directory, id, now)), ..m },
            true,
        )
    }
}

/// The registry with the context at `i` marked accessed at `now`.
pub open spec fn spec_touch(m: ManagerModel, i: int, now: u64) -> ManagerModel {
    ManagerModel {
        streams: m.streams.update(
            i,
            ContextModel { last_accessed_at: now, ..m.streams[i] },
        ),
        ..m
    }
}

/// `get_stream`: a lookup touches the stream's access time.
pub open spec fn spec_get_stream(m: ManagerModel, id: Seq<char>, now: u64) -> ManagerModel {
    if find_stream(m.streams, id) == -1 {
        m
    } else {
        spec_touch(m, find_stream(m.streams, id), now)
    }
}

/// `delete_stream`: the context is removed; an absent id fails.
pub open spec fn spec_delete_stream(m: ManagerModel, id: Seq<char>) -> (ManagerModel, bool) {
    if find_stream(m.streams, id) == -1 {
        (m, false)
    } else {
        (ManagerModel { streams: m.streams.remove(find_stream(m.streams, id)), ..m }, true)
    }
}

/// `write_chunk`: the state after the call and whether bytes were
/// appended.  An absent id fails without a trace; a stream not in
/// `Uploading` state is only touched; otherwise the chunk is written at
/// the write cursor, and the cursor and total advance by the count the
/// cache reports (the write fails when that count is zero, i.e. for an
/// empty chunk).
pub open spec fn spec_write_chunk(m: ManagerModel, id: Seq<char>, data: Seq<u8>, now: u64) -> (
    ManagerModel,
    bool,
) {
    let i = find_stream(m.streams, id);
    if i == -1 {
        (m, false)
    } else {
        let c = m.streams[i];
        if !(c.status is Uploading) {
            (spec_touch(m, i, now), false)
        } else {
            let wr = spec_write(c.cache.unwrap(), c.current_offset, data);
            if wr.1 > 0 {
                (
                    ManagerModel {
                        streams: m.streams.update(
                            i,
                            ContextModel {
                                cache: Some(wr.0),
                                current_offset: (c.current_offset + wr.1) as u64,
                                total_size: (c.total_size + wr.1) as u64,
                                last_accessed_at: now,
                                ..c
                            },
                        ),
                        ..m
                    },
                    true,
                )
            } else {
                (
                    ManagerModel {
                        streams: m.streams.update(
                            i,
                            ContextModel { cache: Some(wr.0), last_accessed_at: now, ..c },
                        ),
                        ..m
                    },
                    false,
                )
            }
        }
    }
}

/// `read_chunk`: the state after the call and the bytes returned.  An
/// absent id reads empty without a trace; otherwise the stream's cache
/// serves the range and the stream is touched.
pub open spec fn spec_read_chunk(
    m: ManagerModel,
    id: Seq<char>,
    offset: u64,
    length: usize,
    now: u64,
) -> (ManagerModel, Seq<u8>) {
    let i = find_stream(m.streams, id);
    if i == -1 {
        (m, Seq::empty())
    } else {
        let c = m.streams[i];
        let rd = spec_read(c.cache.unwrap(), offset, length);
        (
            ManagerModel {
                streams: m.streams.update(
                    i,
                    ContextModel { cache: Some(rd.0), last_accessed_at: now, ..c },
                ),
                ..m
            },
            rd.1,
        )
    }
}

/// `finalize_stream`: an absent id fails; a stream not in `Uploading`
/// state is only touched; otherwise its cache file is trimmed to exactly
/// `total_size` bytes and the stream becomes `Ready`.
pub open spec fn spec_finalize_stream(m: ManagerModel, id: Seq<char>, now: u64) -> (
    ManagerModel,
    bool,
) {
    let i = find_stream(m.streams, id);
    if i == -1 {
        (m, false)
    } else {
        let c = m.streams[i];
        if !(c.status is Uploading) {
            (spec_touch(m, i, now), false)
        } else {
            (
                ManagerModel {
                    streams: m.streams.update(
                        i,
                        ContextModel {
                            cache: Some(spec_resize(c.cache.unwrap(), c.total_size)),
                            status: StreamStatus::Ready,
                            last_accessed_at: now,
                            ..c
                        },
                    ),
                    ..m
                },
                true,
            )
        }
    }
}

/// A stream is stale when its last access lies more than `cutoff_ms`
/// before `now` (a timestamp in the future never counts as stale).
pub open spec fn spec_expired(c: ContextModel, cutoff_ms: u64, now: u64) -> bool {
    now >= c.last_accessed_at && now - c.last_accessed_at > cutoff_ms
}

/// `cleanup_old_streams`: the streams that survive, in order — exactly
/// those not stale.
pub open spec fn spec_cleanup(s: Seq<ContextModel>, cutoff_ms: u64, now: u64) -> Seq<ContextModel>
    decreases s.len(),
{
    if s.len() == 0 {
        Seq::empty()
    } else if spec_expired(s[0], cutoff_ms, now) {
        spec_cleanup(s.drop_first(), cutoff_ms, now)
    } else {
        seq![s[0]] + spec_cleanup(s.drop_first(), cutoff_ms, now)
    }
}

/// Cleanup distributes over appending one context at the end.
pub proof fn lemma_cleanup_push(s: Seq<ContextModel>, c: ContextModel, cutoff_ms: u64, now: u64)
    ensures
        spec_cleanup(s.push(c), cutoff_ms, now) == if spec_expired(c, cutoff_ms, now) {
            spec_cleanup(s, cutoff_ms, now)
        } else {
            spec_cleanup(s, cutoff_ms, now).push(c)
        },
    decreases s.len(),
{
    if s.len() == 0 {
        assert(s.push(c)[0] == c);
        assert(s.push(c).drop_first() =~= Seq::<ContextModel>::empty());
        assert(spec_cleanup(s.push(c).drop_first(), cutoff_ms, now)
            == Seq::<ContextModel>::empty());
        if spec_expired(c, cutoff_ms, now) {
            assert(spec_cleanup(s.push(c), cutoff_ms, now) == Seq::<ContextModel>::empty());
        } else {
            assert(spec_cleanup(s.push(c), cutoff_ms, now) == seq![c]
                + Seq::<ContextModel>::empty());
            assert(seq![c] + Seq::<ContextModel>::empty() =~= spec_cleanup(
                s,
                cutoff_ms,
                now,
            ).push(c));
        }
    } else {
        assert(s.push(c)[0] == s[0]);
        assert(s.push(c).drop_first() =~= s.drop_first().push(c));
        lemma_cleanup_push(s.drop_first(), c, cutoff_ms, now);
        if spec_expired(s[0], cutoff_ms, now) {
            assert(spec_cleanup(s.push(c), cutoff_ms, now) == spec_cleanup(
                s.drop_first().push(c),
                cutoff_ms,
                now,
            ));
        } else {
            assert(spec_cleanup(s.push(c), cutoff_ms, now) == seq![s[0]] + spec_cleanup(
                s.drop_first().push(c),
                cutoff_ms,
                now,
            ));
            if !spec_expired(c, cutoff_ms, now) {
                assert(seq![s[0]] + spec_cleanup(s.drop_first(), cutoff_ms, now).push(c)
                    =~= (seq![s[0]] + spec_cleanup(s.drop_first(), cutoff_ms, now)).push(c));
            }
        }
    }
}

/// Every survivor of a cleanup is one of the original streams.
pub proof fn lemma_cleanup_contains(s: Seq<ContextModel>, cutoff_ms: u64, now: u64, k: int)
    requires
        0 <= k < spec_cleanup(s, cutoff_ms, now).len(),
    ensures
        exists|j: int|
            0 <= j < s.len() && s[j] == spec_cleanup(s, cutoff_ms, now)[k],
    decreases s.len(),
{
    if s.len() > 0 {
        if spec_expired(s[0], cutoff_ms, now) {
            lemma_cleanup_contains(s.drop_first(), cutoff_ms, now, k);
            let j = choose|j: int|
                0 <= j < s.drop_first().len() && s.drop_first()[j] == spec_cleanup(
                    s,
                    cutoff_ms,
                    now,
                )[k];
            assert(s[j + 1] == spec_cleanup(s, cutoff_ms, now)[k]);
        } else {
            if k == 0 {
                assert(s[0] == spec_cleanup(s, cutoff_ms, now)[0]);
            } else {
                lemma_cleanup_contains(s.drop_first(), cutoff_ms, now, k - 1);
                let j = choose|j: int|
                    0 <= j < s.drop_first().len() && s.drop_first()[j] == spec_cleanup(
                        s.drop_first(),
                        cutoff_ms,
                        now,
                    )[k - 1];
                assert(s[j + 1] == spec_cleanup(s, cutoff_ms, now)[k]);
            }
        }
    }
}

/// Cleanup keeps a well-formed registry well-formed.
pub proof fn lemma_cleanup_wf(dir: Seq<char>, s: Seq<ContextModel>, cutoff_ms: u64, now: u64)
    requires
        streams_wf(dir, s),
    ensures
        streams_wf(dir, spec_cleanup(s, cutoff_ms, now)),
    decreases s.len(),
{
    let out = spec_cleanup(s, cutoff_ms, now);
    assert forall|i: int| 0 <= i < out.len() implies ctx_wf(dir, #[trigger] out[i]) by {
        lemma_cleanup_contains(s, cutoff_ms, now, i);
        let j = choose|j: int| 0 <= j < s.len() && s[j] == out[i];
        assert(ctx_wf(dir, s[j]));
    }
    if s.len() > 0 {
        assert forall|i: int| 0 <= i < s.drop_first().len() implies ctx_wf(
            dir,
            #[trigger] s.drop_first()[i],
        ) && (forall|j: int|
            0 <= j < i ==> s.drop_first()[j].stream_id != s.drop_first()[i].stream_id) by {
            assert(s.drop_first()[i] == s[i + 1]);
            assert(ctx_wf(dir, s[i + 1]));
            assert forall|j: int| 0 <= j < i implies s.drop_first()[j].stream_id
                != s.drop_first()[i].stream_id by {
                assert(s.drop_first()[j] == s[j + 1]);
            }
        }
        lemma_cleanup_wf(dir, s.drop_first(), cutoff_ms, now);
        if !spec_expired(s[0], cutoff_ms, now) {
            let tail = spec_cleanup(s.drop_first(), cutoff_ms, now);
            assert forall|p: int, q: int| 0 <= p < q < out.len() implies out[p].stream_id
                != out[q].stream_id by {
                if p == 0 {
                    lemma_cleanup_contains(s.drop_first(), cutoff_ms, now, q - 1);
                    let j = choose|j: int|
                        0 <= j < s.drop_first().len() && s.drop_first()[j] == tail[q - 1];
                    assert(s.drop_first()[j] == s[j + 1]);
                    assert(s[0].stream_id != s[j + 1].stream_id);
                    assert(out[q] == tail[q - 1]);
                } else {
                    assert(out[p] == tail[p - 1]);
                    assert(out[q] == tail[q - 1]);
                }
            }
        }
    }
}

/// Two sequences with the same ids at the same places are searched alike.
pub proof fn lemma_find_stream_same_ids(
    s1: Seq<ContextModel>,
    s2: Seq<ContextModel>,
    id: Seq<char>,
)
    requires
        s1.len() == s2.len(),
        forall|i: int| 0 <= i < s1.len() ==> s1[i].stream_id == s2[i].stream_id,
    ensures
        find_stream(s1, id) == find_stream(s2, id),
    decreases s1.len(),
{
    if s1.len() > 0 && s1[0].stream_id != id {
        assert forall|i: int| 0 <= i < s1.drop_first().len() implies s1.drop_first()[i].stream_id
            == s2.drop_first()[i].stream_id by {
            assert(s1.drop_first()[i] == s1[i + 1]);
            assert(s2.drop_first()[i] == s2[i + 1]);
        }
        lemma_find_stream_same_ids(s1.drop_first(), s2.drop_first(), id);
    }
}

/// Touching an entry keeps the registry well-formed.
pub proof fn lemma_touch_wf(m: ManagerModel, i: int, now: u64)
    requires
        m.wf(),
        0 <= i < m.streams.len(),
    ensures
        spec_touch(m, i, now).wf(),
        spec_touch(m, i, now).streams.len() == m.streams.len(),
        forall|k: int|
            0 <= k < m.streams.len() ==> spec_touch(m, i, now).streams[k].stream_id
                == m.streams[k].stream_id,
{
    let m2 = spec_touch(m, i, now);
    assert forall|k: int| 0 <= k < m2.streams.len() implies m2.ctx_wf(#[trigger] m2.streams[k]) by {
        assert(m.ctx_wf(m.streams[k]));
    }
}


/// What one `write_chunk` on a live uploading stream does to the model:
/// the registry stays well-formed, the ids stay put, the target stream
/// stays in `Uploading` with its cursor advanced by the chunk length, and
/// its bytes are exactly the old bytes with the chunk appended.
pub proof fn lemma_spec_write_chunk(m: ManagerModel, id: Seq<char>, data: Seq<u8>, now: u64)
    requires
        m.wf(),
        m.has_stream(id),
        m.stream_at(id).status is Uploading,
        m.stream_at(id).current_offset + data.len() <= usize::MAX,
    ensures
        spec_write_chunk(m, id, data, now).0.wf(),
        spec_write_chunk(m, id, data, now).1 == (data.len() > 0),
        spec_write_chunk(m, id, data, now).0.streams.len() == m.streams.len(),
        forall|k: int|
            0 <= k < m.streams.len() ==> spec_write_chunk(m, id, data, now).0.streams[k].stream_id
                == m.streams[k].stream_id,
        forall|k: int|
            0 <= k < m.streams.len() && k != find_stream(m.streams, id) ==> spec_write_chunk(
                m,
                id,
                data,
                now,
            ).0.streams[k] == m.streams[k],
        spec_write_chunk(m, id, data, now).0.has_stream(id),
        spec_write_chunk(m, id, data, now).0.stream_at(id).status is Uploading,
        spec_write_chunk(m, id, data, now).0.stream_at(id).current_offset == m.stream_at(
            id,
        ).current_offset + data.len(),
        spec_write_chunk(m, id, data, now).0.stream_data(id) == m.stream_data(id) + data,
{
    let i = find_stream(m.streams, id);
    lemma_find_stream_props(m.streams, id);
    let c = m.streams[i];
    let cm = c.cache.unwrap();
    assert(m.ctx_wf(c));
    let wr = spec_write(cm, c.current_offset, data);
    let m2 = spec_write_chunk(m, id, data, now).0;
    if data.len() > 0 {
        assert(wr.0.file.unwrap() =~= cm.bytes() + data);
        assert(wr.1 == data.len());
    } else {
        assert(wr.0.file.unwrap() =~= cm.bytes());
        assert(wr.0.file.unwrap() =~= cm.bytes() + data);
        assert(wr.1 == 0);
    }
    assert forall|k: int| 0 <= k < m2.streams.len() implies m2.ctx_wf(#[trigger] m2.streams[k]) by {
        if k != i {
            assert(m2.streams[k] == m.streams[k]);
            assert(m.ctx_wf(m.streams[k]));
        }
    }
    assert forall|p: int, q: int| 0 <= p < q < m2.streams.len() implies m2.streams[p].stream_id
        != m2.streams[q].stream_id by {
        assert(m.streams[p].stream_id != m.streams[q].stream_id);
    }
    lemma_find_stream_same_ids(m2.streams, m.streams, id);
}

/// What one `read_chunk` wholly below the write cursor does: the state
/// keeps its shape (only the access time moves), and the bytes returned
/// are exactly the stream's bytes in `[offset, offset + length)`.
pub proof fn lemma_spec_read_chunk(m: ManagerModel, id: Seq<char>, offset: u64, length: usize, now: u64)
    requires
        m.wf(),
        m.has_stream(id),
        offset + length <= m.stream_at(id).current_offset,
    ensures
        spec_read_chunk(m, id, offset, length, now).0.wf(),
        spec_read_chunk(m, id, offset, length, now).0.streams.len() == m.streams.len(),
        forall|k: int|
            0 <= k < m.streams.len() ==> spec_read_chunk(m, id, offset, length, now).0.streams[
                k
            ].stream_id == m.streams[k].stream_id,
        spec_read_chunk(m, id, offset, length, now).0.has_stream(id),
        spec_read_chunk(m, id, offset, length, now).0.stream_at(id).status == m.stream_at(
            id,
        ).status,
        spec_read_chunk(m, id, offset, length, now).0.stream_at(id).current_offset == m.stream_at(
            id,
        ).current_offset,
        spec_read_chunk(m, id, offset, length, now).0.stream_data(id) == m.stream_data(id),
        spec_read_chunk(m, id, offset, length, now).1 == m.stream_data(id).subrange(
            offset as int,
            offset + length,
        ),
{
    let i = find_stream(m.streams, id);
    lemma_find_stream_props(m.streams, id);
    let c = m.streams[i];
    let cm = c.cache.unwrap();
    assert(m.ctx_wf(c));
    let rd = spec_read(cm, offset, length);
    assert(rd.0 =~= cm);
    if offset >= cm.size {
        assert(length == 0);
        assert(rd.1 =~= m.stream_data(id).subrange(offset as int, offset + length));
    } else {
        assert(rd.1 == cm.bytes().subrange(offset as int, offset + length));
    }
    let m2 = spec_read_chunk(m, id, offset, length, now).0;
    assert forall|k: int| 0 <= k < m2.streams.len() implies m2.ctx_wf(#[trigger] m2.streams[k]) by {
        if k != i {
            assert(m2.streams[k] == m.streams[k]);
        }
        assert(m.ctx_wf(m.streams[k]));
    }
    assert forall|p: int, q: int| 0 <= p < q < m2.streams.len() implies m2.streams[p].stream_id
        != m2.streams[q].stream_id by {
        assert(m.streams[p].stream_id != m.streams[q].stream_id);
    }
    lemma_find_stream_same_ids(m2.streams, m.streams, id);
}

/// Thread-safe registry of the streams the server knows.
pub struct StreamManager {
    cache_directory: String,
    streams: Vec<StreamContext>,
}

impl View for StreamManager {
    type V = ManagerModel;

    closed spec fn view(&self) -> ManagerModel {
        ManagerModel {
            cache_directory: self.cache_directory@,
            streams: Seq::new(self.streams@.len(), |i: int| self.streams@[i]@),
        }
    }
}

impl StreamManager {
    /// A registry serving cache files under `cache_directory` with no
    /// streams yet.
    pub fn instance(cache_directory: String) -> (r: Self)
        ensures
            r@ == (ManagerModel { cache_directory: cache_directory@, streams: Seq::empty() }),
            r@.wf(),
    {
        let r = StreamManager { cache_directory, streams: Vec::new() };
        proof {
            assert(r@.streams =~= Seq::<ContextModel>::empty());
            assert(r@ =~= (ManagerModel {
                cache_directory: r@.cache_directory,
                streams: Seq::empty(),
            }));
        }
        r
    }

    /// Cache file path for a stream: `{cache_directory}/{stream_id}.cache`.
    fn get_cache_path(&self, stream_id: &str) -> (r: String)
        ensures
            r@ == spec_cache_path(self@.cache_directory, stream_id@),
    {
        self.cache_directory.clone().concat("/").concat(stream_id).concat(".cache")
    }

    /// Index of the context carrying `stream_id`, if any.
    fn find(&self, stream_id: &str) -> (r: Option<usize>)
        ensures
            match r {
                Some(i) => {
                    &&& 0 <= i < self@.streams.len()
                    &&& find_stream(self@.streams, stream_id@) == i
                },
                None => find_stream(self@.streams, stream_id@) == -1,
            },
    {
        let mut i: usize = 0;
        while i < self.streams.len()
            invariant
                i <= self@.streams.len(),
                self@.streams.len() == self.streams@.len(),
                forall|j: int| 0 <= j < i ==> self@.streams[j].stream_id != stream_id@,
            decreases self@.streams.len() - i,
        {
            if str_eq(self.streams[i].stream_id.as_str(), stream_id) {
                proof {
                    lemma_find_stream_first(self@.streams, stream_id@, i as int);
                }
                return Some(i);
            }
            i += 1;
        }
        proof {
            lemma_find_stream_props(self@.streams, stream_id@);
            if find_stream(self@.streams, stream_id@) != -1 {
                assert(false);
            }
        }
        None
    }

    /// Mark the context at `i` accessed at `now_ms`.
    fn touch(&mut self, i: usize, now_ms: u64)
        requires
            i < old(self)@.streams.len(),
        ensures
            final(self)@ == spec_touch(old(self)@, i as int, now_ms),
    {
        let mut context = self.streams.remove(i);
        context.update_access_time(now_ms);
        self.streams.insert(i, context);
        proof {
            assert(self@.streams =~= spec_touch(old(self)@, i as int, now_ms).streams);
            assert(self@ =~= spec_touch(old(self)@, i as int, now_ms));
        }
    }

    /// Register a new stream: fails on a duplicate id and leaves the
    /// existing stream untouched; otherwise creates the context and its
    /// empty cache file in `Uploading` state.
    pub fn create_stream(&mut self, stream_id: String, now_ms: u64) -> (r: bool)
        requires
            old(self)@.wf(),
        ensures
            final(self)@.wf(),
            (final(self)@, r) == spec_create_stream(old(self)@, stream_id@, now_ms),
            r == !old(self)@.has_stream(stream_id@),
    {
        match self.find(stream_id.as_str()) {
            Some(_) => false,
            None => {
                proof {
                    lemma_find_stream_props(self@.streams, stream_id@);
                }
                let cache_path = self.get_cache_path(stream_id.as_str());
                let ghost id_view = stream_id@;
                let mut context = StreamContext::new(stream_id, cache_path.clone(), now_ms);
                context.set_status(StreamStatus::Uploading);
                context.update_access_time(now_ms);
                let mut mmap_file = MemoryMappedCache::new(cache_path);
                mmap_file.create(0);
                context.set_mmap_file(Some(mmap_file));
                self.streams.push(context);
                proof {
                    let m2 = spec_create_stream(old(self)@, id_view, now_ms).0;
                    assert(context@ =~= fresh_context(old(self)@.cache_directory, id_view, now_ms));
                    assert(self@.streams =~= m2.streams);
                    assert(self@ =~= m2);
                    assert forall|k: int| 0 <= k < self@.streams.len() implies self@.ctx_wf(
                        #[trigger] self@.streams[k],
                    ) by {
                        if k < old(self)@.streams.len() {
                            assert(old(self)@.ctx_wf(old(self)@.streams[k]));
                        } else {
                            assert(self@.streams[k] == fresh_context(
                                self@.cache_directory,
                                id_view,
                                now_ms,
                            ));
                        }
                    }
                }
                true
            },
        }
    }

    /// Look up a stream and touch its access time; `None` if absent.
    pub fn get_stream(&mut self, stream_id: &str, now_ms: u64) -> (r: Option<&StreamContext>)
        requires
            old(self)@.wf(),
        ensures
            final(self)@.wf(),
            final(self)@ == spec_get_stream(old(self)@, stream_id@, now_ms),
            match r {
                Some(c) => {
                    &&& old(self)@.has_stream(stream_id@)
                    &&& c@ == final(self)@.stream_at(stream_id@)
                },
                None => !old(self)@.has_stream(stream_id@),
            },
    {
        match self.find(stream_id) {
            None => None,
            Some(i) => {
                self.touch(i, now_ms);
                proof {
                    lemma_touch_wf(old(self)@, i as int, now_ms);
                    lemma_find_stream_props(old(self)@.streams, stream_id@);
                    lemma_find_stream_first(self@.streams, stream_id@, i as int);
                }
                Some(&self.streams[i])
            },
        }
    }

    /// List the ids of all registered streams.
    pub fn list_active_streams(&self) -> (r: Vec<String>)
        ensures
            r@.len() == self@.streams.len(),
            forall|i: int| 0 <= i < r@.len() ==> r@[i]@ == self@.streams[i].stream_id,
    {
        let mut out: Vec<String> = Vec::new();
        let mut i: usize = 0;
        while i < self.streams.len()
            invariant
                i <= self@.streams.len(),
                self@.streams.len() == self.streams@.len(),
                out@.len() == i,
                forall|j: int| 0 <= j < i ==> out@[j]@ == self@.streams[j].stream_id,
            decreases self@.streams.len() - i,
        {
            out.push(self.streams[i].stream_id.clone());
            i += 1;
        }
        out
    }

    /// Remove a stream, closing its cache file; fails if the id is absent.
    pub fn delete_stream(&mut self, stream_id: &str) -> (r: bool)
        requires
            old(self)@.wf(),
        ensures
            final(self)@.wf(),
            (final(self)@, r) == spec_delete_stream(old(self)@, stream_id@),
    {
        match self.find(stream_id) {
            None => false,
            Some(i) => {
                let mut context = self.streams.remove(i);
                match context.mmap_file {
                    Some(ref mut cache) => {
                        proof {
                            assert(old(self)@.ctx_wf(old(self)@.streams[i as int]));
                        }
                        cache.close();
                    },
                    None => {},
                }
                proof {
                    let m2 = spec_delete_stream(old(self)@, stream_id@).0;
                    assert(self@.streams =~= m2.streams);
                    assert(self@ =~= m2);
                    assert forall|k: int| 0 <= k < self@.streams.len() implies self@.ctx_wf(
                        #[trigger] self@.streams[k],
                    ) by {
                        if k < i as int {
                            assert(self@.streams[k] == old(self)@.streams[k]);
                            assert(old(self)@.ctx_wf(old(self)@.streams[k]));
                        } else {
                            assert(self@.streams[k] == old(self)@.streams[k + 1]);
                            assert(old(self)@.ctx_wf(old(self)@.streams[k + 1]));
                        }
                    }
                    assert forall|p: int, q: int|
                        0 <= p < q < self@.streams.len() implies self@.streams[p].stream_id
                        != self@.streams[q].stream_id by {
                        let p0 = if p < i as int { p } else { p + 1 };
                        let q0 = if q < i as int { q } else { q + 1 };
                        assert(self@.streams[p] == old(self)@.streams[p0]);
                        assert(self@.streams[q] == old(self)@.streams[q0]);
                    }
                }
                true
            },
        }
    }

    /// Append a chunk at the stream's write cursor.  Fails on an absent
    /// id, on a stream not in `Uploading` state, and on an empty chunk;
    /// on success the cursor and the total advance by the chunk length.
    pub fn write_chunk(&mut self, stream_id: &str, data: &[u8], now_ms: u64) -> (r: bool)
        requires
            old(self)@.wf(),
            old(self)@.has_stream(stream_id@) ==> old(self)@.stream_at(
                stream_id@,
            ).current_offset + data@.len() <= usize::MAX,
        ensures
            final(self)@.wf(),
            (final(self)@, r) == spec_write_chunk(old(self)@, stream_id@, data@, now_ms),
            r ==> final(self)@.stream_data(stream_id@) == old(self)@.stream_data(stream_id@)
                + data@,
    {
        match self.find(stream_id) {
            None => false,
            Some(i) => {
                proof {
                    lemma_find_stream_props(old(self)@.streams, stream_id@);
                    assert(old(self)@.ctx_wf(old(self)@.streams[i as int]));
                }
                let ghost c = old(self)@.streams[i as int];
                let mut context = self.streams.remove(i);
                context.update_access_time(now_ms);
                if !(context.status == StreamStatus::Uploading) {
                    self.streams.insert(i, context);
                    proof {
                        let m2 = spec_touch(old(self)@, i as int, now_ms);
                        assert(self@.streams =~= m2.streams);
                        assert(self@ =~= m2);
                        lemma_touch_wf(old(self)@, i as int, now_ms);
                    }
                    return false;
                }
                let current_offset = context.current_offset;
                let written = match context.mmap_file {
                    Some(ref mut cache) => cache.write(current_offset, data),
                    None => 0,
                };
                let ghost wr = spec_write(c.cache.unwrap(), c.current_offset, data@);
                if written > 0 {
                    context.current_offset = current_offset + written as u64;
                    context.total_size = context.total_size + written as u64;
                    self.streams.insert(i, context);
                    proof {
                        let m2 = spec_write_chunk(old(self)@, stream_id@, data@, now_ms).0;
                        assert(self@.streams =~= m2.streams);
                        assert(self@ =~= m2);
                        lemma_spec_write_chunk(old(self)@, stream_id@, data@, now_ms);
                        assert(self@ == spec_write_chunk(old(self)@, stream_id@, data@, now_ms).0);
                    }
                    true
                } else {
                    self.streams.insert(i, context);
                    proof {
                        let m2 = spec_write_chunk(old(self)@, stream_id@, data@, now_ms).0;
                        assert(self@.streams =~= m2.streams);
                        assert(self@ =~= m2);
                        lemma_spec_write_chunk(old(self)@, stream_id@, data@, now_ms);
                        assert(self@ == spec_write_chunk(old(self)@, stream_id@, data@, now_ms).0);
                    }
                    false
                }
            },
        }
    }

    /// Serve up to `length` bytes of stream `stream_id` from `offset`;
    /// empty on an absent stream or a range past the end.  A served
    /// stream is touched.
    pub fn read_chunk(&mut self, stream_id: &str, offset: u64, length: usize, now_ms: u64) -> (r:
        Vec<u8>)
        requires
            old(self)@.wf(),
        ensures
            final(self)@.wf(),
            final(self)@ == spec_read_chunk(old(self)@, stream_id@, offset, length, now_ms).0,
            r@ == spec_read_chunk(old(self)@, stream_id@, offset, length, now_ms).1,
    {
        match self.find(stream_id) {
            None => Vec::new(),
            Some(i) => {
                proof {
                    lemma_find_stream_props(old(self)@.streams, stream_id@);
                    assert(old(self)@.ctx_wf(old(self)@.streams[i as int]));
                }
                let ghost c = old(self)@.streams[i as int];
                let mut context = self.streams.remove(i);
                context.update_access_time(now_ms);
                let data = match context.mmap_file {
                    Some(ref mut cache) => cache.read(offset, length),
                    None => Vec::new(),
                };
                self.streams.insert(i, context);
                proof {
                    let cm = c.cache.unwrap();
                    // under the invariant the cache is open, so a read
                    // leaves it as it was
                    assert(spec_read(cm, offset, length).0 =~= cm);
                    let m2 = spec_read_chunk(old(self)@, stream_id@, offset, length, now_ms).0;
                    assert(self@.streams =~= m2.streams);
                    assert(self@ =~= m2);
                    assert forall|k: int| 0 <= k < self@.streams.len() implies self@.ctx_wf(
                        #[trigger] self@.streams[k],
                    ) by {
                        if k != i as int {
                            assert(self@.streams[k] == old(self)@.streams[k]);
                        }
                        assert(old(self)@.ctx_wf(old(self)@.streams[k]));
                    }
                }
                data
            },
        }
    }

    /// Trim the stream's cache file to exactly its total size and mark
    /// the stream `Ready`.  Fails on an absent id or a stream not in
    /// `Uploading` state; the payload bytes survive unchanged.
    pub fn finalize_stream(&mut self, stream_id: &str, now_ms: u64) -> (r: bool)
        requires
            old(self)@.wf(),
        ensures
            final(self)@.wf(),
            (final(self)@, r) == spec_finalize_stream(old(self)@, stream_id@, now_ms),
            r ==> final(self)@.stream_at(stream_id@).status is Ready,
            r ==> final(self)@.stream_at(stream_id@).cache.unwrap().size == old(self)@.stream_at(
                stream_id@,
            ).total_size,
            r ==> final(self)@.stream_data(stream_id@) == old(self)@.stream_data(stream_id@),
    {
        match self.find(stream_id) {
            None => false,
            Some(i) => {
                proof {
                    lemma_find_stream_props(old(self)@.streams, stream_id@);
                    assert(old(self)@.ctx_wf(old(self)@.streams[i as int]));
                }
                let ghost c = old(self)@.streams[i as int];
                let mut context = self.streams.remove(i);
                context.update_access_time(now_ms);
                if !(context.status == StreamStatus::Uploading) {
                    self.streams.insert(i, context);
                    proof {
                        let m2 = spec_touch(old(self)@, i as int, now_ms);
                        assert(self@.streams =~= m2.streams);
                        assert(self@ =~= m2);
                        lemma_touch_wf(old(self)@, i as int, now_ms);
                    }
                    return false;
                }
                let total_size = context.total_size;
                match context.mmap_file {
                    Some(ref mut cache) => {
                        cache.finalize(total_size);
                    },
                    None => {},
                }
                context.status = StreamStatus::Ready;
                self.streams.insert(i, context);
                proof {
                    let cm = c.cache.unwrap();
                    assert(crate::memory_mapped_cache::resize_bytes(
                        cm.bytes(),
                        c.total_size as nat,
                    ) =~= cm.bytes());
                    let m2 = spec_finalize_stream(old(self)@, stream_id@, now_ms).0;
                    assert(self@.streams =~= m2.streams);
                    assert(self@ =~= m2);
                    assert forall|k: int| 0 <= k < self@.streams.len() implies self@.ctx_wf(
                        #[trigger] self@.streams[k],
                    ) by {
                        if k != i as int {
                            assert(self@.streams[k] == old(self)@.streams[k]);
                        }
                        assert(old(self)@.ctx_wf(old(self)@.streams[k]));
                    }
                    lemma_find_stream_same_ids(self@.streams, old(self)@.streams, stream_id@);
                }
                true
            },
        }
    }

    /// Drop every stream whose last access lies more than `max_age_hours`
    /// before `now_ms`; the survivors keep their order and state.
    pub fn cleanup_old_streams(&mut self, max_age_hours: u64, now_ms: u64)
        requires
            old(self)@.wf(),
            max_age_hours <= u64::MAX / 3600000,
        ensures
            final(self)@.wf(),
            final(self)@ == (ManagerModel {
                streams: spec_cleanup(old(self)@.streams, (max_age_hours * 3600000) as u64, now_ms),
                ..old(self)@
            }),
    {
        let cutoff_ms: u64 = max_age_hours * 3600000;
        let ghost orig = old(self)@.streams;
        let mut i: usize = 0;
        let mut processed: Ghost<int> = Ghost(0);
        while i < self.streams.len()
            invariant
                old(self)@.wf(),
                orig == old(self)@.streams,
                cutoff_ms == max_age_hours * 3600000,
                0 <= processed@ <= orig.len(),
                self@.cache_directory == old(self)@.cache_directory,
                self.streams@.len() == self@.streams.len(),
                self@.streams =~= spec_cleanup(orig.subrange(0, processed@), cutoff_ms, now_ms)
                    + orig.subrange(processed@, orig.len() as int),
                i == spec_cleanup(orig.subrange(0, processed@), cutoff_ms, now_ms).len(),
            decreases orig.len() - processed@,
        {
            let ghost pre = processed@;
            proof {
                assert(pre < orig.len());
                assert(self@.streams[i as int] == orig.subrange(pre, orig.len() as int)[0]);
                assert(self@.streams[i as int] == orig[pre]);
                assert(streams_wf(old(self)@.cache_directory, orig));
                assert(ctx_wf(old(self)@.cache_directory, orig[pre]));
            }
            let last_accessed = self.streams[i].last_accessed_at;
            let expired = now_ms >= last_accessed && now_ms - last_accessed > cutoff_ms;
            if expired {
                let mut context = self.streams.remove(i);
                match context.mmap_file {
                    Some(ref mut cache) => {
                        cache.close();
                    },
                    None => {},
                }
                proof {
                    let a = spec_cleanup(orig.subrange(0, pre), cutoff_ms, now_ms);
                    let prev = a + orig.subrange(pre, orig.len() as int);
                    assert(self@.streams =~= prev.remove(i as int));
                    assert forall|j: int| 0 <= j < prev.remove(i as int).len() implies prev.remove(
                        i as int,
                    )[j] == (a + orig.subrange(pre + 1, orig.len() as int))[j] by {
                        if j < i as int {
                            assert(prev.remove(i as int)[j] == prev[j]);
                        } else {
                            assert(prev.remove(i as int)[j] == prev[j + 1]);
                        }
                    }
                    assert(self@.streams =~= a + orig.subrange(pre + 1, orig.len() as int));
                }
            } else {
                i += 1;
            }
            proof {
                processed@ = pre + 1;
                assert(orig.subrange(0, pre + 1) =~= orig.subrange(0, pre).push(orig[pre]));
                lemma_cleanup_push(orig.subrange(0, pre), orig[pre], cutoff_ms, now_ms);
                assert(self@.streams =~= spec_cleanup(
                    orig.subrange(0, pre + 1),
                    cutoff_ms,
                    now_ms,
                ) + orig.subrange(pre + 1, orig.len() as int));
            }
        }
        proof {
            assert(orig.subrange(0, orig.len() as int) =~= orig);
            assert(orig.subrange(orig.len() as int, orig.len() as int)
                =~= Seq::<ContextModel>::empty());
            assert(self@.streams =~= spec_cleanup(orig, cutoff_ms, now_ms));
            assert(self@ =~= (ManagerModel {
                streams: spec_cleanup(orig, cutoff_ms, now_ms),
                ..old(self)@
            }));
            lemma_cleanup_wf(old(self)@.cache_directory, orig, cutoff_ms, now_ms);
        }
    }
}

/// The concatenation of a sequence of chunks.
pub open spec fn flatten_chunks(cs: Seq<Seq<u8>>) -> Seq<u8>
    decreases cs.len(),
{
    if cs.len() == 0 {
        Seq::empty()
    } else {
        cs[0] + flatten_chunks(cs.drop_first())
    }
}

/// The registry after uploading the chunks of `cs` to stream `id`, in
/// order.
pub open spec fn upload_chunks(m: ManagerModel, id: Seq<char>, cs: Seq<Seq<u8>>, now: u64) -> ManagerModel
    decreases cs.len(),
{
    if cs.len() == 0 {
        m
    } else {
        upload_chunks(spec_write_chunk(m, id, cs[0], now).0, id, cs.drop_first(), now)
    }
}

/// The sum of a sequence of read lengths.
pub open spec fn sum_cuts(cuts: Seq<usize>) -> int
    decreases cuts.len(),
{
    if cuts.len() == 0 {
        0int
    } else {
        cuts[0] + sum_cuts(cuts.drop_first())
    }
}

/// The bytes collected by reading stream `id` from `offset` in pieces of
/// the given lengths, each read picking up where the previous ended.
pub open spec fn read_all(m: ManagerModel, id: Seq<char>, offset: u64, cuts: Seq<usize>, now: u64) -> Seq<u8>
    decreases cuts.len(),
{
    if cuts.len() == 0 {
        Seq::empty()
    } else {
        spec_read_chunk(m, id, offset, cuts[0], now).1 + read_all(
            spec_read_chunk(m, id, offset, cuts[0], now).0,
            id,
            (offset + cuts[0]) as u64,
            cuts.drop_first(),
            now,
        )
    }
}

/// Uploading a sequence of chunks appends their concatenation: the stream
/// stays live and in `Uploading` state, its cursor advances by the total
/// length, and its bytes are the old bytes followed by the chunks.
pub proof fn lemma_upload_chunks(m: ManagerModel, id: Seq<char>, cs: Seq<Seq<u8>>, now: u64)
    requires
        m.wf(),
        m.has_stream(id),
        m.stream_at(id).status is Uploading,
        m.stream_at(id).current_offset + flatten_chunks(cs).len() <= usize::MAX,
    ensures
        upload_chunks(m, id, cs, now).wf(),
        upload_chunks(m, id, cs, now).has_stream(id),
        upload_chunks(m, id, cs, now).stream_at(id).status is Uploading,
        upload_chunks(m, id, cs, now).stream_at(id).current_offset == m.stream_at(
            id,
        ).current_offset + flatten_chunks(cs).len(),
        upload_chunks(m, id, cs, now).stream_data(id) == m.stream_data(id) + flatten_chunks(cs),
    decreases cs.len(),
{
    if cs.len() == 0 {
        assert(m.stream_data(id) + flatten_chunks(cs) =~= m.stream_data(id));
    } else {
        assert(flatten_chunks(cs) == cs[0] + flatten_chunks(cs.drop_first()));
        lemma_spec_write_chunk(m, id, cs[0], now);
        let m1 = spec_write_chunk(m, id, cs[0], now).0;
        lemma_upload_chunks(m1, id, cs.drop_first(), now);
        assert((m.stream_data(id) + cs[0]) + flatten_chunks(cs.drop_first()) =~= m.stream_data(id)
            + flatten_chunks(cs));
    }
}

/// Reading below the cursor in consecutive pieces collects exactly the
/// covered range of the stream's bytes.
pub proof fn lemma_read_all(m: ManagerModel, id: Seq<char>, offset: u64, cuts: Seq<usize>, now: u64)
    requires
        m.wf(),
        m.has_stream(id),
        offset + sum_cuts(cuts) <= m.stream_at(id).current_offset,
        forall|k: int| 0 <= k < cuts.len() ==> cuts[k] >= 0,
    ensures
        read_all(m, id, offset, cuts, now) == m.stream_data(id).subrange(
            offset as int,
            offset + sum_cuts(cuts),
        ),
    decreases cuts.len(),
{
    lemma_sum_cuts_nonneg(cuts);
    lemma_find_stream_props(m.streams, id);
    assert(m.ctx_wf(m.stream_at(id)));
    assert(m.stream_data(id).len() == m.stream_at(id).current_offset);
    if cuts.len() == 0 {
        assert(m.stream_data(id).subrange(offset as int, offset as int) =~= Seq::<u8>::empty());
    } else {
        lemma_sum_cuts_nonneg(cuts.drop_first());
        lemma_spec_read_chunk(m, id, offset, cuts[0], now);
        let m1 = spec_read_chunk(m, id, offset, cuts[0], now).0;
        lemma_read_all(m1, id, (offset + cuts[0]) as u64, cuts.drop_first(), now);
        assert(m.stream_data(id).subrange(offset as int, offset + cuts[0]) + m.stream_data(
            id,
        ).subrange(offset + cuts[0], offset + cuts[0] + sum_cuts(cuts.drop_first()))
            =~= m.stream_data(id).subrange(offset as int, offset + sum_cuts(cuts)));
    }
}

/// A sum of read lengths is never negative.
pub proof fn lemma_sum_cuts_nonneg(cuts: Seq<usize>)
    ensures
        sum_cuts(cuts) >= 0,
    decreases cuts.len(),
{
    if cuts.len() > 0 {
        lemma_sum_cuts_nonneg(cuts.drop_first());
    }
}

/// Round trip: uploading a byte sequence to a fresh stream in any
/// chunking and reading it back from offset zero in any chunking that
/// covers it yields exactly the uploaded bytes.
pub proof fn lemma_round_trip(
    m: ManagerModel,
    id: Seq<char>,
    cs: Seq<Seq<u8>>,
    cuts: Seq<usize>,
    now: u64,
    now2: u64,
)
    requires
        m.wf(),
        m.has_stream(id),
        m.stream_at(id).status is Uploading,
        m.stream_at(id).current_offset == 0,
        flatten_chunks(cs).len() <= usize::MAX,
        sum_cuts(cuts) == flatten_chunks(cs).len(),
    ensures
        read_all(upload_chunks(m, id, cs, now), id, 0, cuts, now2) == flatten_chunks(cs),
{
    lemma_find_stream_props(m.streams, id);
    assert(m.ctx_wf(m.stream_at(id)));
    assert(m.stream_data(id).len() == 0);
    lemma_upload_chunks(m, id, cs, now);
    let m1 = upload_chunks(m, id, cs, now);
    assert(m1.stream_data(id) =~= flatten_chunks(cs));
    lemma_read_all(m1, id, 0, cuts, now2);
    assert(m1.stream_data(id).subrange(0, sum_cuts(cuts)) =~= m1.stream_data(id));
}

/// Prefix stability: while a stream is uploading with cursor `w`, a read
/// of a range wholly below `w` returns exactly the bytes written there,
/// and a concurrent later chunk append does not disturb that range.
pub proof fn lemma_prefix_stable(
    m: ManagerModel,
    id: Seq<char>,
    data: Seq<u8>,
    offset: u64,
    length: usize,
    now: u64,
    now2: u64,
)
    requires
        m.wf(),
        m.has_stream(id),
        m.stream_at(id).status is Uploading,
        m.stream_at(id).current_offset + data.len() <= usize::MAX,
        offset + length <= m.stream_at(id).current_offset,
    ensures
        spec_read_chunk(m, id, offset, length, now2).1 == m.stream_data(id).subrange(
            offset as int,
            offset + length,
        ),
        spec_read_chunk(spec_write_chunk(m, id, data, now).0, id, offset, length, now2).1
            == spec_read_chunk(m, id, offset, length, now2).1,
{
    lemma_find_stream_props(m.streams, id);
    assert(m.ctx_wf(m.stream_at(id)));
    assert(m.stream_data(id).len() == m.stream_at(id).current_offset);
    lemma_spec_read_chunk(m, id, offset, length, now2);
    lemma_spec_write_chunk(m, id, data, now);
    let m1 = spec_write_chunk(m, id, data, now).0;
    lemma_spec_read_chunk(m1, id, offset, length, now2);
    assert(m1.stream_data(id).subrange(offset as int, offset + length) =~= m.stream_data(
        id,
    ).subrange(offset as int, offset + length));
}

/// Finalize exactness: finalizing an uploading stream succeeds, trims its
/// cache file to exactly the total bytes uploaded, preserves those bytes,
/// and marks the stream `Ready`.
pub proof fn lemma_finalize_exact(m: ManagerModel, id: Seq<char>, now: u64)
    requires
        m.wf(),
        m.has_stream(id),
        m.stream_at(id).status is Uploading,
    ensures
        spec_finalize_stream(m, id, now).1,
        spec_finalize_stream(m, id, now).0.stream_at(id).cache.unwrap().size == m.stream_at(
            id,
        ).total_size,
        spec_finalize_stream(m, id, now).0.stream_data(id) == m.stream_data(id),
        spec_finalize_stream(m, id, now).0.stream_at(id).status is Ready,
{
    let i = find_stream(m.streams, id);
    lemma_find_stream_props(m.streams, id);
    let c = m.streams[i];
    assert(m.ctx_wf(c));
    let m2 = spec_finalize_stream(m, id, now).0;
    assert(crate::memory_mapped_cache::resize_bytes(c.cache.unwrap().bytes(), c.total_size as nat)
        =~= c.cache.unwrap().bytes());
    assert forall|k: int| 0 <= k < m.streams.len() implies m2.streams[k].stream_id == m.streams[
        k
    ].stream_id by {
        if k != i {
            assert(m2.streams[k] == m.streams[k]);
        }
    }
    lemma_find_stream_same_ids(m2.streams, m.streams, id);
}

/// Uniqueness: creating a stream under an existing id fails and leaves
/// the registry — the existing stream included — untouched.
pub proof fn lemma_create_unique(m: ManagerModel, id: Seq<char>, now: u64)
    requires
        m.has_stream(id),
    ensures
        !spec_create_stream(m, id, now).1,
        spec_create_stream(m, id, now).0 == m,
{
}

} // verus!
