// Tests of the client-side helpers: chunk arithmetic, performance marks,
// stream id generation, checksums and verification.

use audio_stream_cache::chunk_manager::ChunkManager;
use audio_stream_cache::chunk_manager::CHUNK_SIZE;
use audio_stream_cache::config::Config;
use audio_stream_cache::performance_monitor::PerformanceMonitor;
use audio_stream_cache::stream_context::StreamStatus;
use audio_stream_cache::stream_id_generator::generate_short;
use audio_stream_cache::stream_id_generator::generate_stream_id;
use audio_stream_cache::verification_module::compute_sha256;
use audio_stream_cache::verification_module::verify;

#[test]
fn chunk_count_is_ceiling_division() {
    assert_eq!(ChunkManager::calculate_chunk_count(0, CHUNK_SIZE), 0);
    assert_eq!(ChunkManager::calculate_chunk_count(1, CHUNK_SIZE), 1);
    assert_eq!(ChunkManager::calculate_chunk_count(65536, CHUNK_SIZE), 1);
    assert_eq!(ChunkManager::calculate_chunk_count(65537, CHUNK_SIZE), 2);
    assert_eq!(ChunkManager::calculate_chunk_count(1_048_576, CHUNK_SIZE), 16);
}

#[test]
fn chunk_size_is_truncated_at_file_end() {
    assert_eq!(ChunkManager::get_chunk_size(1_048_576, 0, CHUNK_SIZE), 65536);
    assert_eq!(ChunkManager::get_chunk_size(100, 64, CHUNK_SIZE), 36);
    assert_eq!(ChunkManager::get_chunk_size(100, 100, CHUNK_SIZE), 0);
}

#[test]
fn performance_monitor_durations() {
    let mut perf = PerformanceMonitor::new(1_048_576);
    assert_eq!(perf.get_file_size(), 1_048_576);
    assert!(perf.upload_duration_ms().is_none());
    perf.start_upload(1000);
    assert!(perf.upload_duration_ms().is_none());
    perf.end_upload(1800);
    assert_eq!(perf.upload_duration_ms(), Some(800));
    perf.start_download(2000);
    perf.end_download(2400);
    assert_eq!(perf.download_duration_ms(), Some(400));
}

#[test]
fn generated_short_ids_are_well_formed() {
    for _ in 0..16 {
        let id = generate_short();
        assert_eq!(id.len(), 23);
        assert!(id.starts_with("stream-"));
        assert!(id[7..].chars().all(|c| c.is_ascii_hexdigit() && !c.is_ascii_uppercase()));
    }
}

#[test]
fn generated_legacy_ids_are_well_formed() {
    let id = generate_stream_id();
    assert!(id.starts_with("stream-"));
    let suffix = &id[id.len() - 8..];
    assert!(suffix.chars().all(|c| c.is_ascii_hexdigit() && !c.is_ascii_uppercase()));
    assert_eq!(id.as_bytes()[id.len() - 9], b'-');
}

#[test]
fn sha256_of_known_input() {
    assert_eq!(
        compute_sha256(b"abc"),
        "ba7816bf8f01cfea414140de5dae2223b00361a396177a9cb410ff61f20015ad"
    );
    assert_eq!(
        compute_sha256(b""),
        "e3b0c44298fc1c149afbf4c8996fb92427ae41e4649b934ca495991b7852b855"
    );
}

#[test]
fn verify_passes_on_identical_bytes() {
    let original = vec![1u8, 2, 3, 4, 5];
    let result = verify(&original, &original);
    assert!(result.passed);
    assert_eq!(result.original_size, 5);
    assert_eq!(result.downloaded_size, 5);
    assert_eq!(result.original_checksum, result.downloaded_checksum);
}

#[test]
fn verify_fails_on_differences() {
    let a = vec![1u8, 2, 3];
    let shorter = vec![1u8, 2];
    let twisted = vec![1u8, 2, 4];
    assert!(!verify(&a, &shorter).passed);
    let r = verify(&a, &twisted);
    assert!(!r.passed);
    assert_eq!(r.original_size, r.downloaded_size);
    assert_ne!(r.original_checksum, r.downloaded_checksum);
}

#[test]
fn config_and_status_names() {
    let config = Config {
        input: String::from("in.mp3"),
        server: String::from("ws://localhost:8080/audio"),
        output: String::from("out.mp3"),
        verbose: false,
    };
    assert_eq!(config.server, "ws://localhost:8080/audio");
    assert_eq!(StreamStatus::Uploading.as_str(), "UPLOADING");
    assert_eq!(StreamStatus::Ready.as_str(), "READY");
    assert_eq!(StreamStatus::Error.as_str(), "ERROR");
}
