// Tests of the wire protocol: parsing, reply rendering, and the frame
// state machine end to end.

use audio_stream_cache::audio_websocket_server::AudioWebSocketServer;
use audio_stream_cache::memory_pool_manager::MemoryPoolManager;
use audio_stream_cache::protocol::control_to_json;
use audio_stream_cache::protocol::parse_control_message;
use audio_stream_cache::protocol::ControlMessage;
use audio_stream_cache::stream_manager::StreamManager;
use audio_stream_cache::verification_module::compute_sha256;
use audio_stream_cache::websocket_message_handler::HandlerReply;
use audio_stream_cache::websocket_message_handler::WebSocketMessageHandler;

fn reply_text(r: HandlerReply) -> String {
    match r {
        HandlerReply::Text(s) => s,
        HandlerReply::Binary(_) => panic!("expected a text reply"),
    }
}

fn reply_binary(r: HandlerReply) -> Vec<u8> {
    match r {
        HandlerReply::Binary(b) => b,
        HandlerReply::Text(s) => panic!("expected a binary reply, got {}", s),
    }
}

#[test]
fn parse_reads_known_fields() {
    let m = parse_control_message(
        "{\"type\":\"GET\",\"streamId\":\"s1\",\"offset\":5,\"length\":10,\"extra\":true}",
    )
    .expect("valid JSON parses");
    assert_eq!(m.msg_type, "GET");
    assert_eq!(m.stream_id.as_deref(), Some("s1"));
    assert_eq!(m.offset, Some(5));
    assert_eq!(m.length, Some(10));
    assert!(m.message.is_none());
}

#[test]
fn parse_rejects_invalid_json() {
    assert!(parse_control_message("{not json").is_none());
    // valid JSON with absent fields parses with an empty type
    let m = parse_control_message("{}").unwrap();
    assert_eq!(m.msg_type, "");
    assert!(m.stream_id.is_none());
}

#[test]
fn control_to_json_renders_fields_in_order() {
    let msg = ControlMessage {
        msg_type: String::from("STARTED"),
        stream_id: Some(String::from("s1")),
        offset: None,
        length: None,
        message: Some(String::from("Stream created")),
    };
    assert_eq!(
        control_to_json(&msg),
        "{\"type\":\"STARTED\",\"streamId\":\"s1\",\"message\":\"Stream created\"}"
    );
    let get = ControlMessage {
        msg_type: String::from("GET"),
        stream_id: Some(String::from("s2")),
        offset: Some(1048576),
        length: Some(65536),
        message: None,
    };
    assert_eq!(
        control_to_json(&get),
        "{\"type\":\"GET\",\"streamId\":\"s2\",\"offset\":1048576,\"length\":65536}"
    );
}

#[test]
fn control_to_json_escapes_strings() {
    let msg = ControlMessage {
        msg_type: String::from("ERROR"),
        stream_id: None,
        offset: None,
        length: None,
        message: Some(String::from("a \"quoted\\\" path\nnext")),
    };
    assert_eq!(
        control_to_json(&msg),
        "{\"type\":\"ERROR\",\"message\":\"a \\\"quoted\\\\\\\" path\\u000anext\"}"
    );
}

#[test]
fn rendered_replies_parse_back() {
    let msg = ControlMessage {
        msg_type: String::from("STOPPED"),
        stream_id: Some(String::from("st\"r")),
        offset: Some(7),
        length: None,
        message: Some(String::from("Stream finalized")),
    };
    let parsed = parse_control_message(&control_to_json(&msg)).expect("round trip");
    assert_eq!(parsed.msg_type, "STOPPED");
    assert_eq!(parsed.stream_id.as_deref(), Some("st\"r"));
    assert_eq!(parsed.offset, Some(7));
    assert!(parsed.length.is_none());
    assert_eq!(parsed.message.as_deref(), Some("Stream finalized"));
}

#[test]
fn small_file_exchange() {
    let mut mgr = StreamManager::instance(String::from("cache"));
    let mut active = String::new();
    let started = reply_text(WebSocketMessageHandler::handle_text_message(
        &mut mgr,
        &mut active,
        "{\"type\":\"START\",\"streamId\":\"s1\"}",
        1,
    ));
    assert_eq!(
        started,
        "{\"type\":\"STARTED\",\"streamId\":\"s1\",\"message\":\"Stream created\"}"
    );
    assert_eq!(active, "s1");
    let payload: Vec<u8> = (0..128u8).collect();
    WebSocketMessageHandler::handle_binary_message(&mut mgr, &active, &payload, 2);
    let stopped = reply_text(WebSocketMessageHandler::handle_text_message(
        &mut mgr,
        &mut active,
        "{\"type\":\"STOP\",\"streamId\":\"s1\"}",
        3,
    ));
    assert_eq!(
        stopped,
        "{\"type\":\"STOPPED\",\"streamId\":\"s1\",\"message\":\"Stream finalized\"}"
    );
    assert_eq!(active, "");
    let data = reply_binary(WebSocketMessageHandler::handle_text_message(
        &mut mgr,
        &mut active,
        "{\"type\":\"GET\",\"streamId\":\"s1\",\"offset\":0,\"length\":128}",
        4,
    ));
    assert_eq!(data, payload);
    // the backing file holds exactly 128 bytes
    let ctx = mgr.get_stream("s1", 5).unwrap();
    assert_eq!(ctx.get_mmap_file().unwrap().get_size(), 128);
}

#[test]
fn chunked_upload_matches_source() {
    let mut mgr = StreamManager::instance(String::from("cache"));
    let mut active = String::new();
    reply_text(WebSocketMessageHandler::handle_text_message(
        &mut mgr,
        &mut active,
        "{\"type\":\"START\",\"streamId\":\"big\"}",
        1,
    ));
    let source: Vec<u8> = (0..1_048_576u32).map(|i| (i * 31 % 256) as u8).collect();
    for chunk in source.chunks(65536) {
        WebSocketMessageHandler::handle_binary_message(&mut mgr, &active, chunk, 2);
    }
    reply_text(WebSocketMessageHandler::handle_text_message(
        &mut mgr,
        &mut active,
        "{\"type\":\"STOP\",\"streamId\":\"big\"}",
        3,
    ));
    let ctx = mgr.get_stream("big", 4).unwrap();
    assert_eq!(ctx.get_total_size(), 1_048_576);
    assert_eq!(ctx.get_mmap_file().unwrap().get_size(), 1_048_576);
    let mut downloaded = Vec::new();
    let mut offset = 0u64;
    while downloaded.len() < source.len() {
        let part = mgr.read_chunk("big", offset, 65536, 5);
        assert!(!part.is_empty());
        offset += part.len() as u64;
        downloaded.extend(part);
    }
    assert_eq!(compute_sha256(&downloaded), compute_sha256(&source));
}

#[test]
fn get_during_upload_returns_prefix() {
    let mut mgr = StreamManager::instance(String::from("cache"));
    let mut active = String::new();
    reply_text(WebSocketMessageHandler::handle_text_message(
        &mut mgr,
        &mut active,
        "{\"type\":\"START\",\"streamId\":\"s2\"}",
        1,
    ));
    let source: Vec<u8> = (0..131_072u32).map(|i| (i % 253) as u8).collect();
    WebSocketMessageHandler::handle_binary_message(&mut mgr, &active, &source[0..65536], 2);
    let part = reply_binary(WebSocketMessageHandler::handle_text_message(
        &mut mgr,
        &mut active,
        "{\"type\":\"GET\",\"streamId\":\"s2\",\"offset\":0,\"length\":32768}",
        3,
    ));
    assert_eq!(&part[..], &source[0..32768]);
    WebSocketMessageHandler::handle_binary_message(&mut mgr, &active, &source[65536..], 4);
    reply_text(WebSocketMessageHandler::handle_text_message(
        &mut mgr,
        &mut active,
        "{\"type\":\"STOP\",\"streamId\":\"s2\"}",
        5,
    ));
    let downloaded = {
        let mut all = Vec::new();
        let mut offset = 0u64;
        loop {
            let part = mgr.read_chunk("s2", offset, 65536, 6);
            if part.is_empty() {
                break;
            }
            offset += part.len() as u64;
            all.extend(part);
        }
        all
    };
    assert_eq!(compute_sha256(&downloaded), compute_sha256(&source));
}

#[test]
fn duplicate_start_gets_error() {
    let mut mgr = StreamManager::instance(String::from("cache"));
    let mut active1 = String::new();
    let mut active2 = String::new();
    reply_text(WebSocketMessageHandler::handle_text_message(
        &mut mgr,
        &mut active1,
        "{\"type\":\"START\",\"streamId\":\"dup\"}",
        1,
    ));
    WebSocketMessageHandler::handle_binary_message(&mut mgr, &active1, &[1u8, 2, 3], 2);
    // same id from another connection: ERROR, first stream untouched
    let err = reply_text(WebSocketMessageHandler::handle_text_message(
        &mut mgr,
        &mut active2,
        "{\"type\":\"START\",\"streamId\":\"dup\"}",
        3,
    ));
    assert_eq!(
        err,
        "{\"type\":\"ERROR\",\"message\":\"Failed to create stream: dup\"}"
    );
    assert_eq!(active2, "");
    assert_eq!(mgr.list_active_streams().len(), 1);
    let ctx = mgr.get_stream("dup", 4).unwrap();
    assert_eq!(ctx.get_total_size(), 3);
}

#[test]
fn get_past_end_truncates_or_errors() {
    let mut mgr = StreamManager::instance(String::from("cache"));
    let mut active = String::new();
    reply_text(WebSocketMessageHandler::handle_text_message(
        &mut mgr,
        &mut active,
        "{\"type\":\"START\",\"streamId\":\"s\"}",
        1,
    ));
    WebSocketMessageHandler::handle_binary_message(&mut mgr, &active, &[5u8; 100], 2);
    let part = reply_binary(WebSocketMessageHandler::handle_text_message(
        &mut mgr,
        &mut active,
        "{\"type\":\"GET\",\"streamId\":\"s\",\"offset\":50,\"length\":1000}",
        3,
    ));
    assert_eq!(part.len(), 50);
    let err = reply_text(WebSocketMessageHandler::handle_text_message(
        &mut mgr,
        &mut active,
        "{\"type\":\"GET\",\"streamId\":\"s\",\"offset\":200,\"length\":10}",
        4,
    ));
    assert_eq!(
        err,
        "{\"type\":\"ERROR\",\"message\":\"Failed to read from stream: s\"}"
    );
}

#[test]
fn unknown_type_gets_error_and_connection_stays_usable() {
    let mut mgr = StreamManager::instance(String::from("cache"));
    let mut active = String::new();
    let err = reply_text(WebSocketMessageHandler::handle_text_message(
        &mut mgr,
        &mut active,
        "{\"type\":\"PAUSE\",\"streamId\":\"s3\"}",
        1,
    ));
    assert!(err.contains("Unknown message type: PAUSE"));
    // the connection is still served afterwards
    let started = reply_text(WebSocketMessageHandler::handle_text_message(
        &mut mgr,
        &mut active,
        "{\"type\":\"START\",\"streamId\":\"s3\"}",
        2,
    ));
    assert!(started.contains("STARTED"));
}

#[test]
fn error_replies_for_bad_requests() {
    let mut mgr = StreamManager::instance(String::from("cache"));
    let mut active = String::new();
    let invalid = reply_text(WebSocketMessageHandler::handle_text_message(
        &mut mgr, &mut active, "{oops", 1,
    ));
    assert_eq!(invalid, "{\"type\":\"ERROR\",\"message\":\"Invalid JSON format\"}");
    let missing = reply_text(WebSocketMessageHandler::handle_text_message(
        &mut mgr,
        &mut active,
        "{\"type\":\"START\"}",
        2,
    ));
    assert_eq!(missing, "{\"type\":\"ERROR\",\"message\":\"Missing streamId\"}");
    let stop_absent = reply_text(WebSocketMessageHandler::handle_text_message(
        &mut mgr,
        &mut active,
        "{\"type\":\"STOP\",\"streamId\":\"nope\"}",
        3,
    ));
    assert_eq!(
        stop_absent,
        "{\"type\":\"ERROR\",\"message\":\"Failed to finalize stream: nope\"}"
    );
}

#[test]
fn binary_without_binding_is_discarded() {
    let mut mgr = StreamManager::instance(String::from("cache"));
    let active = String::new();
    WebSocketMessageHandler::handle_binary_message(&mut mgr, &active, &[1u8, 2, 3], 1);
    assert!(mgr.list_active_streams().is_empty());
}

#[test]
fn server_tracks_connections_and_bindings() {
    let mgr = StreamManager::instance(String::from("cache"));
    let pool = MemoryPoolManager::instance(65536, 4);
    let mut server = AudioWebSocketServer::new(8080, String::from("/audio"), mgr, pool);
    assert_eq!(server.get_port(), 8080);
    assert_eq!(server.get_path(), "/audio");
    server.client_connected(7);
    let reply = server
        .handle_text_frame(7, "{\"type\":\"START\",\"streamId\":\"c7\"}", 1)
        .expect("known connection");
    assert!(matches!(reply, HandlerReply::Text(ref s) if s.contains("STARTED")));
    server.handle_binary_frame(7, &[1u8, 2, 3, 4], 2);
    let got = server
        .handle_text_frame(7, "{\"type\":\"GET\",\"streamId\":\"c7\"}", 3)
        .expect("known connection");
    match got {
        HandlerReply::Binary(b) => assert_eq!(b, vec![1, 2, 3, 4]),
        HandlerReply::Text(s) => panic!("expected bytes, got {}", s),
    }
    // frames from an unknown connection are ignored
    assert!(server.handle_text_frame(99, "{\"type\":\"START\",\"streamId\":\"x\"}", 4).is_none());
    server.client_disconnected(7);
    assert!(server.handle_text_frame(7, "{\"type\":\"STOP\",\"streamId\":\"c7\"}", 5).is_none());
}
