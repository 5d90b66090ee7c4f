//! Verified core of an audio stream caching service.
//!
//! Clients upload byte streams in chunks over a WebSocket control
//! protocol; the server appends them to a growable cache file, can serve
//! arbitrary byte ranges back while the upload is still in progress, and
//! trims the file to its exact payload size on finalization.  This crate
//! holds the verified logic: the cache-file model, the bounded buffer
//! pool, the stream registry, and the control-message state machine.
//! Socket and file-system plumbing live outside it.

pub mod audio_websocket_server;
pub mod chunk_manager;
pub mod config;
pub mod memory_mapped_cache;
pub mod memory_pool_manager;
pub mod performance_monitor;
pub mod protocol;
pub mod stream_context;
pub mod stream_id_generator;
pub mod stream_manager;
pub mod text;
pub mod verification_module;
pub mod websocket_message_handler;
