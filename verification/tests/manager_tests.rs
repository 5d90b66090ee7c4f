// Tests of the stream registry: creation, writes, reads, finalize,
// deletion and age-based cleanup.

use audio_stream_cache::stream_context::StreamStatus;
use audio_stream_cache::stream_manager::StreamManager;

#[test]
fn create_stream_and_lookup() {
    let mut mgr = StreamManager::instance(String::from("cache"));
    assert!(mgr.create_stream(String::from("s1"), 100));
    let ctx = mgr.get_stream("s1", 150).expect("stream must exist");
    assert_eq!(ctx.get_stream_id(), "s1");
    assert_eq!(ctx.get_cache_path(), "cache/s1.cache");
    assert_eq!(ctx.get_current_offset(), 0);
    assert_eq!(ctx.get_total_size(), 0);
    assert_eq!(ctx.get_created_at(), 100);
    assert_eq!(ctx.get_last_accessed_at(), 150);
    assert!(matches!(ctx.get_status(), StreamStatus::Uploading));
    assert!(mgr.get_stream("missing", 160).is_none());
}

#[test]
fn duplicate_create_fails_and_leaves_stream_untouched() {
    let mut mgr = StreamManager::instance(String::from("cache"));
    assert!(mgr.create_stream(String::from("s1"), 1));
    assert!(mgr.write_chunk("s1", &[1u8, 2, 3], 2));
    assert!(!mgr.create_stream(String::from("s1"), 3));
    let ids = mgr.list_active_streams();
    assert_eq!(ids, vec![String::from("s1")]);
    let ctx = mgr.get_stream("s1", 4).unwrap();
    assert_eq!(ctx.get_current_offset(), 3);
    assert_eq!(ctx.get_total_size(), 3);
    assert!(matches!(ctx.get_status(), StreamStatus::Uploading));
    assert_eq!(mgr.read_chunk("s1", 0, 3, 5), vec![1, 2, 3]);
}

#[test]
fn write_advances_cursor_and_read_round_trips() {
    let mut mgr = StreamManager::instance(String::from("cache"));
    assert!(mgr.create_stream(String::from("s1"), 1));
    let payload: Vec<u8> = (0..=255u8).collect();
    // upload in uneven chunks
    assert!(mgr.write_chunk("s1", &payload[0..100], 2));
    assert!(mgr.write_chunk("s1", &payload[100..101], 3));
    assert!(mgr.write_chunk("s1", &payload[101..256], 4));
    assert_eq!(mgr.get_stream("s1", 5).unwrap().get_current_offset(), 256);
    // read back in a different chunking
    let mut out = Vec::new();
    out.extend(mgr.read_chunk("s1", 0, 7, 6));
    out.extend(mgr.read_chunk("s1", 7, 200, 7));
    out.extend(mgr.read_chunk("s1", 207, 49, 8));
    assert_eq!(out, payload);
}

#[test]
fn read_during_upload_sees_written_prefix() {
    let mut mgr = StreamManager::instance(String::from("cache"));
    assert!(mgr.create_stream(String::from("s2"), 1));
    let first: Vec<u8> = (0..65536u32).map(|i| (i % 251) as u8).collect();
    assert!(mgr.write_chunk("s2", &first, 2));
    // a concurrent reader below the cursor sees exactly the written bytes
    let got = mgr.read_chunk("s2", 0, 32768, 3);
    assert_eq!(got.len(), 32768);
    assert_eq!(&got[..], &first[0..32768]);
    // the upload continues undisturbed
    assert!(mgr.write_chunk("s2", &first, 4));
    assert_eq!(mgr.get_stream("s2", 5).unwrap().get_total_size(), 131072);
}

#[test]
fn empty_chunk_write_fails() {
    let mut mgr = StreamManager::instance(String::from("cache"));
    assert!(mgr.create_stream(String::from("s1"), 1));
    assert!(!mgr.write_chunk("s1", &[], 2));
    assert!(!mgr.write_chunk("missing", &[1u8], 3));
}

#[test]
fn finalize_trims_to_exact_size() {
    let mut mgr = StreamManager::instance(String::from("cache"));
    assert!(mgr.create_stream(String::from("s1"), 1));
    assert!(mgr.write_chunk("s1", &[9u8; 100], 2));
    assert!(mgr.finalize_stream("s1", 3));
    let ctx = mgr.get_stream("s1", 4).unwrap();
    assert!(matches!(ctx.get_status(), StreamStatus::Ready));
    assert_eq!(ctx.get_total_size(), 100);
    let cache = ctx.get_mmap_file().expect("cache attached");
    assert_eq!(cache.get_size(), 100);
    // a finalized stream rejects further writes and finalizes
    assert!(!mgr.write_chunk("s1", &[1u8], 5));
    assert!(!mgr.finalize_stream("s1", 6));
    // but stays readable
    assert_eq!(mgr.read_chunk("s1", 0, 100, 7), vec![9u8; 100]);
}

#[test]
fn finalize_zero_length_stream() {
    let mut mgr = StreamManager::instance(String::from("cache"));
    assert!(mgr.create_stream(String::from("s1"), 1));
    assert!(mgr.finalize_stream("s1", 2));
    let ctx = mgr.get_stream("s1", 3).unwrap();
    assert_eq!(ctx.get_total_size(), 0);
    assert_eq!(ctx.get_mmap_file().unwrap().get_size(), 0);
}

#[test]
fn delete_stream_removes_it() {
    let mut mgr = StreamManager::instance(String::from("cache"));
    assert!(mgr.create_stream(String::from("a"), 1));
    assert!(mgr.create_stream(String::from("b"), 2));
    assert!(mgr.delete_stream("a"));
    assert!(!mgr.delete_stream("a"));
    assert_eq!(mgr.list_active_streams(), vec![String::from("b")]);
}

#[test]
fn cleanup_drops_only_stale_streams() {
    let mut mgr = StreamManager::instance(String::from("cache"));
    let hour_ms: u64 = 3_600_000;
    assert!(mgr.create_stream(String::from("old"), 0));
    assert!(mgr.create_stream(String::from("fresh"), 3 * hour_ms));
    // cutoff two hours: "old" was last touched three hours before now
    mgr.cleanup_old_streams(2, 3 * hour_ms);
    assert_eq!(mgr.list_active_streams(), vec![String::from("fresh")]);
    // exactly at the cutoff nothing is dropped
    mgr.cleanup_old_streams(0, 3 * hour_ms);
    assert_eq!(mgr.list_active_streams(), vec![String::from("fresh")]);
}

#[test]
fn lookup_refreshes_access_time_for_cleanup() {
    let mut mgr = StreamManager::instance(String::from("cache"));
    let hour_ms: u64 = 3_600_000;
    assert!(mgr.create_stream(String::from("s1"), 0));
    // the lookup refreshes the access time, so the stream survives
    assert!(mgr.get_stream("s1", 3 * hour_ms).is_some());
    mgr.cleanup_old_streams(2, 3 * hour_ms);
    assert_eq!(mgr.list_active_streams(), vec![String::from("s1")]);
}
