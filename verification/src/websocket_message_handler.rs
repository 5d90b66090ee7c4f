//! The control-channel state machine: START, STOP, GET and binary frames.
//!
//! A text frame is parsed as JSON and dispatched on its `type`: START
//! registers a stream and binds the connection to it, STOP finalizes the
//! connection's stream and clears the binding, GET serves a byte range as
//! one binary frame.  A binary frame appends to the connection's bound
//! stream and draws no reply.  Anything else — invalid JSON, a missing
//! `streamId`, an unknown type, a failing registry call — draws an ERROR
//! text frame; the connection stays open.

use crate::protocol::json_control_of;
use crate::protocol::parse_control_message;
use crate::protocol::spec_control_json;
use crate::protocol::control_to_json;
use crate::protocol::ControlMessage;
use crate::protocol::ControlView;
use crate::stream_manager::spec_create_stream;
use crate::stream_manager::spec_finalize_stream;
use crate::stream_manager::spec_read_chunk;
use crate::stream_manager::spec_write_chunk;
use crate::stream_manager::ManagerModel;
use crate::stream_manager::StreamManager;
use crate::text::str_eq;
use vstd::prelude::*;

verus! {

/// What the server sends back for one incoming frame: a JSON text frame,
/// a binary frame, or nothing.
pub enum HandlerReply {
    Text(String),
    Binary(Vec<u8>),
}

/// The abstract content of a reply.
#[verifier::ext_equal]
pub ghost enum ReplyModel {
    Text(Seq<char>),
    Binary(Seq<u8>),
}

impl View for HandlerReply {
    type V = ReplyModel;

    open spec fn view(&self) -> ReplyModel {
        match self {
            HandlerReply::Text(s) => ReplyModel::Text(s@),
            HandlerReply::Binary(b) => ReplyModel::Binary(b@),
        }
    }
}

/// The JSON text of an ERROR reply carrying `message`.
pub open spec fn spec_error_json(message: Seq<char>) -> Seq<char> {
    spec_control_json(
        ControlView {
            msg_type: "ERROR"@,
            stream_id: None,
            offset: None,
            length: None,
            message: Some(message),
        },
    )
}

/// The JSON text of the STARTED reply for `id`.
pub open spec fn spec_started_json(id: Seq<char>) -> Seq<char> {
    spec_control_json(
        ControlView {
            msg_type: "STARTED"@,
            stream_id: Some(id),
            offset: None,
            length: None,
            message: Some("Stream created"@),
        },
    )
}

/// The JSON text of the STOPPED reply for `id`.
pub open spec fn spec_stopped_json(id: Seq<char>) -> Seq<char> {
    spec_control_json(
        ControlView {
            msg_type: "STOPPED"@,
            stream_id: Some(id),
            offset: None,
            length: None,
            message: Some("Stream finalized"@),
        },
    )
}

/// What one text frame does: the registry afterwards, the connection's
/// active-stream binding afterwards, and the reply sent.
pub open spec fn spec_handle_text(
    m: ManagerModel,
    active: Seq<char>,
    text: Seq<char>,
    now: u64,
) -> (ManagerModel, Seq<char>, ReplyModel) {
    match json_control_of(text) {
        None => (m, active, ReplyModel::Text(spec_error_json("Invalid JSON format"@))),
        Some(c) => {
            if c.msg_type == "START"@ {
                match c.stream_id {
                    None => (m, active, ReplyModel::Text(spec_error_json("Missing streamId"@))),
                    Some(id) => {
                        let created = spec_create_stream(m, id, now);
                        if created.1 {
                            (created.0, id, ReplyModel::Text(spec_started_json(id)))
                        } else {
                            (
                                created.0,
                                active,
                                ReplyModel::Text(
                                    spec_error_json("Failed to create stream: "@ + id),
                                ),
                            )
                        }
                    },
                }
            } else if c.msg_type == "STOP"@ {
                match c.stream_id {
                    None => (m, active, ReplyModel::Text(spec_error_json("Missing streamId"@))),
                    Some(id) => {
                        let finalized = spec_finalize_stream(m, id, now);
                        if finalized.1 {
                            (
                                finalized.0,
                                Seq::<char>::empty(),
                                ReplyModel::Text(spec_stopped_json(id)),
                            )
                        } else {
                            (
                                finalized.0,
                                active,
                                ReplyModel::Text(
                                    spec_error_json("Failed to finalize stream: "@ + id),
                                ),
                            )
                        }
                    },
                }
            } else if c.msg_type == "GET"@ {
                match c.stream_id {
                    None => (m, active, ReplyModel::Text(spec_error_json("Missing streamId"@))),
                    Some(id) => {
                        let offset = match c.offset {
                            Some(o) => o,
                            None => 0u64,
                        };
                        let length = match c.length {
                            Some(l) => l,
                            None => 65536usize,
                        };
                        let rd = spec_read_chunk(m, id, offset, length, now);
                        if rd.1.len() > 0 {
                            (rd.0, active, ReplyModel::Binary(rd.1))
                        } else {
                            (
                                rd.0,
                                active,
                                ReplyModel::Text(
                                    spec_error_json("Failed to read from stream: "@ + id),
                                ),
                            )
                        }
                    },
                }
            } else {
                (
                    m,
                    active,
                    ReplyModel::Text(spec_error_json("Unknown message type: "@ + c.msg_type)),
                )
            }
        },
    }
}

/// Processes the frames of one connection against the shared registry.
pub struct WebSocketMessageHandler;

impl WebSocketMessageHandler {
    /// Build the ERROR reply carrying `message`.
    fn error_reply(message: String) -> (r: HandlerReply)
        ensures
            r@ == ReplyModel::Text(spec_error_json(message@)),
    {
        let reply = ControlMessage {
            msg_type: String::from_str("ERROR"),
            stream_id: None,
            offset: None,
            length: None,
            message: Some(message),
        };
        HandlerReply::Text(control_to_json(&reply))
    }

    /// Handle one JSON text frame against the registry and the
    /// connection's active-stream binding, and return the reply to send.
    pub fn handle_text_message(
        stream_mgr: &mut StreamManager,
        active_stream: &mut String,
        message: &str,
        now_ms: u64,
    ) -> (r: HandlerReply)
        requires
            old(stream_mgr)@.wf(),
        ensures
            final(stream_mgr)@.wf(),
            (final(stream_mgr)@, final(active_stream)@, r@) == spec_handle_text(
                old(stream_mgr)@,
                old(active_stream)@,
                message@,
                now_ms,
            ),
    {
        let parsed = parse_control_message(message);
        match parsed {
            None => Self::error_reply(String::from_str("Invalid JSON format")),
            Some(msg) => {
                if str_eq(msg.msg_type.as_str(), "START") {
                    match msg.stream_id {
                        None => Self::error_reply(String::from_str("Missing streamId")),
                        Some(id) => {
                            let created = stream_mgr.create_stream(id.clone(), now_ms);
                            if created {
                                *active_stream = id.clone();
                                let reply = ControlMessage {
                                    msg_type: String::from_str("STARTED"),
                                    stream_id: Some(id),
                                    offset: None,
                                    length: None,
                                    message: Some(String::from_str("Stream created")),
                                };
                                HandlerReply::Text(control_to_json(&reply))
                            } else {
                                Self::error_reply(
                                    String::from_str("Failed to create stream: ").concat(
                                        id.as_str(),
                                    ),
                                )
                            }
                        },
                    }
                } else if str_eq(msg.msg_type.as_str(), "STOP") {
                    match msg.stream_id {
                        None => Self::error_reply(String::from_str("Missing streamId")),
                        Some(id) => {
                            let finalized = stream_mgr.finalize_stream(id.as_str(), now_ms);
                            if finalized {
                                *active_stream = String::new();
                                let reply = ControlMessage {
                                    msg_type: String::from_str("STOPPED"),
                                    stream_id: Some(id),
                                    offset: None,
                                    length: None,
                                    message: Some(String::from_str("Stream finalized")),
                                };
                                HandlerReply::Text(control_to_json(&reply))
                            } else {
                                Self::error_reply(
                                    String::from_str("Failed to finalize stream: ").concat(
                                        id.as_str(),
                                    ),
                                )
                            }
                        },
                    }
                } else if str_eq(msg.msg_type.as_str(), "GET") {
                    match msg.stream_id {
                        None => Self::error_reply(String::from_str("Missing streamId")),
                        Some(id) => {
                            let offset = match msg.offset {
                                Some(o) => o,
                                None => 0u64,
                            };
                            let length = match msg.length {
                                Some(l) => l,
                                None => 65536usize,
                            };
                            let chunk_data = stream_mgr.read_chunk(
                                id.as_str(),
                                offset,
                                length,
                                now_ms,
                            );
                            if chunk_data.len() > 0 {
                                HandlerReply::Binary(chunk_data)
                            } else {
                                Self::error_reply(
                                    String::from_str("Failed to read from stream: ").concat(
                                        id.as_str(),
                                    ),
                                )
                            }
                        },
                    }
                } else {
                    Self::error_reply(
                        String::from_str("Unknown message type: ").concat(msg.msg_type.as_str()),
                    )
                }
            },
        }
    }

    /// Route a binary frame to the connection's bound stream; with no
    /// binding the frame is discarded.
    pub fn handle_binary_message(
        stream_mgr: &mut StreamManager,
        active_stream: &String,
        data: &[u8],
        now_ms: u64,
    )
        requires
            old(stream_mgr)@.wf(),
            old(stream_mgr)@.has_stream(active_stream@) ==> old(stream_mgr)@.stream_at(
                active_stream@,
            ).current_offset + data@.len() <= usize::MAX,
        ensures
            final(stream_mgr)@.wf(),
            active_stream@.len() == 0 ==> final(stream_mgr)@ == old(stream_mgr)@,
            active_stream@.len() > 0 ==> final(stream_mgr)@ == spec_write_chunk(
                old(stream_mgr)@,
                active_stream@,
                data@,
                now_ms,
            ).0,
    {
        if active_stream.as_str().is_empty() {
            return;
        }
        stream_mgr.write_chunk(active_stream.as_str(), data, now_ms);
    }
}

} // verus!
