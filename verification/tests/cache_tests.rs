// Tests of the mapped cache file and the buffer pool.

use audio_stream_cache::memory_mapped_cache::MemoryMappedCache;
use audio_stream_cache::memory_pool_manager::MemoryPoolManager;

#[test]
fn cache_create_write_read() {
    let mut cache = MemoryMappedCache::new(String::from("cache/t1.cache"));
    assert!(!cache.is_open());
    assert!(cache.create(0));
    assert!(cache.is_open());
    assert_eq!(cache.get_size(), 0);
    let data = [7u8, 8, 9, 10];
    assert_eq!(cache.write(0, &data), 4);
    assert_eq!(cache.get_size(), 4);
    assert_eq!(cache.read(0, 4), vec![7, 8, 9, 10]);
    assert_eq!(cache.get_path(), "cache/t1.cache");
}

#[test]
fn cache_write_grows_and_pads() {
    let mut cache = MemoryMappedCache::new(String::from("cache/t2.cache"));
    assert!(cache.create(0));
    // writing at offset 2 grows the file; the gap reads as zeros
    assert_eq!(cache.write(2, &[5u8, 6]), 2);
    assert_eq!(cache.get_size(), 4);
    assert_eq!(cache.read(0, 10), vec![0, 0, 5, 6]);
}

#[test]
fn cache_read_truncates_at_end() {
    let mut cache = MemoryMappedCache::new(String::from("cache/t3.cache"));
    assert!(cache.create(0));
    assert_eq!(cache.write(0, &[1u8; 100]), 100);
    // a read reaching past the end is truncated, not padded
    assert_eq!(cache.read(50, 1000).len(), 50);
    // a read starting past the end is empty
    assert_eq!(cache.read(200, 10), Vec::<u8>::new());
}

#[test]
fn cache_resize_truncates() {
    let mut cache = MemoryMappedCache::new(String::from("cache/t4.cache"));
    assert!(cache.create(0));
    assert_eq!(cache.write(0, &[9u8; 8]), 8);
    assert!(cache.resize(3));
    assert_eq!(cache.get_size(), 3);
    assert_eq!(cache.read(0, 8), vec![9, 9, 9]);
}

#[test]
fn cache_finalize_sets_exact_size() {
    let mut cache = MemoryMappedCache::new(String::from("cache/t5.cache"));
    assert!(cache.create(16));
    assert_eq!(cache.write(0, &[3u8, 4, 5]), 3);
    assert!(cache.finalize(3));
    assert_eq!(cache.get_size(), 3);
    assert_eq!(cache.read(0, 16), vec![3, 4, 5]);
}

#[test]
fn cache_finalize_zero_length() {
    let mut cache = MemoryMappedCache::new(String::from("cache/t6.cache"));
    assert!(cache.create(0));
    assert!(cache.finalize(0));
    assert_eq!(cache.get_size(), 0);
    assert_eq!(cache.read(0, 10), Vec::<u8>::new());
}

#[test]
fn cache_close_is_idempotent() {
    let mut cache = MemoryMappedCache::new(String::from("cache/t7.cache"));
    assert!(cache.create(0));
    assert_eq!(cache.write(0, &[1u8, 2]), 2);
    cache.close();
    assert!(!cache.is_open());
    let size_after_first = cache.get_size();
    cache.close();
    assert!(!cache.is_open());
    assert_eq!(cache.get_size(), size_after_first);
    // a read reopens the file and still sees the bytes
    assert_eq!(cache.read(0, 2), vec![1, 2]);
}

#[test]
fn cache_operations_fail_when_closed() {
    let mut cache = MemoryMappedCache::new(String::from("cache/t8.cache"));
    assert!(!cache.resize(10));
    assert!(!cache.flush());
    assert!(!cache.finalize(10));
    assert!(!cache.open());
    assert_eq!(cache.read(0, 4), Vec::<u8>::new());
}

#[test]
fn pool_acquire_and_release() {
    let mut pool = MemoryPoolManager::instance(8, 2);
    assert_eq!(pool.get_buffer_size(), 8);
    assert_eq!(pool.get_available_buffers(), 2);
    assert_eq!(pool.get_total_buffers(), 2);
    let a = pool.acquire_buffer();
    assert_eq!(a, vec![0u8; 8]);
    assert_eq!(pool.get_available_buffers(), 1);
    let b = pool.acquire_buffer();
    let c = pool.acquire_buffer();
    // the pool is empty now, so this one was freshly allocated and counted
    assert_eq!(c, vec![0u8; 8]);
    assert_eq!(pool.get_available_buffers(), 0);
    assert_eq!(pool.get_total_buffers(), 3);
    pool.release_buffer(a);
    pool.release_buffer(b);
    assert_eq!(pool.get_available_buffers(), 2);
    // the pool is full: a further release drops the buffer
    pool.release_buffer(c);
    assert_eq!(pool.get_available_buffers(), 2);
}

#[test]
fn pool_release_zeroes_and_checks_size() {
    let mut pool = MemoryPoolManager::instance(4, 1);
    let _ = pool.acquire_buffer();
    // a dirty buffer of the right size is zeroed before reuse
    pool.release_buffer(vec![9u8, 9, 9, 9]);
    assert_eq!(pool.get_available_buffers(), 1);
    assert_eq!(pool.acquire_buffer(), vec![0u8; 4]);
    // a buffer of the wrong size is dropped
    pool.release_buffer(vec![1u8; 3]);
    assert_eq!(pool.get_available_buffers(), 0);
}

#[test]
fn pool_never_exceeds_capacity() {
    let mut pool = MemoryPoolManager::instance(2, 3);
    for _ in 0..10 {
        pool.release_buffer(vec![0u8; 2]);
        assert!(pool.get_available_buffers() <= 3);
    }
    let mut held = Vec::new();
    for _ in 0..5 {
        held.push(pool.acquire_buffer());
    }
    for b in held {
        pool.release_buffer(b);
        assert!(pool.get_available_buffers() <= 3);
    }
}
