//! Control messages of the wire protocol and their JSON form.
//!
//! A text frame carries one JSON object with the fields `type`,
//! `streamId`, `offset`, `length` and `message`, all but `type` optional.
//! Parsing leans on serde_json behind one trusted wrapper whose result is
//! named by an uninterpreted function of the text; the replies the server
//! emits are rendered by verified code, field names in camelCase, absent
//! fields skipped, strings escaped.

use crate::text::push_char;
use crate::text::spec_hex_digit;
use crate::text::spec_u64_dec;
use crate::text::u64_to_dec;
use vstd::prelude::*;

verus! {

/// One control message: the parsed form of a JSON text frame, and the
/// form replies are built in.
pub struct ControlMessage {
    /// The message type: `START`, `STOP`, `GET`, `STARTED`, `STOPPED` or
    /// `ERROR`; empty when the field was absent.
    pub msg_type: String,
    /// The stream the message speaks of.
    pub stream_id: Option<String>,
    /// Byte offset of a `GET`.
    pub offset: Option<u64>,
    /// Byte count of a `GET`.
    pub length: Option<usize>,
    /// Informational text or error reason.
    pub message: Option<String>,
}

/// The abstract content of a control message.
#[verifier::ext_equal]
pub ghost struct ControlView {
    pub msg_type: Seq<char>,
    pub stream_id: Option<Seq<char>>,
    pub offset: Option<u64>,
    pub length: Option<usize>,
    pub message: Option<Seq<char>>,
}

impl View for ControlMessage {
    type V = ControlView;

    open spec fn view(&self) -> ControlView {
        ControlView {
            msg_type: self.msg_type@,
            stream_id: match self.stream_id {
                Some(s) => Some(s@),
                None => None,
            },
            offset: self.offset,
            length: self.length,
            message: match self.message {
                Some(s) => Some(s@),
                None => None,
            },
        }
    }
}

/// A stream message on the client side; same shape as a control message.
pub struct StreamMessage {
    pub msg_type: String,
    pub stream_id: Option<String>,
    pub offset: Option<u64>,
    pub length: Option<usize>,
    pub message: Option<String>,
}

/// What parsing a text frame yields: `None` for text that is not valid
/// JSON, otherwise the fields of the object — `type`, `streamId` and
/// `message` as strings (`type` falling back to empty when absent or not
/// a string), `offset` and `length` as unsigned numbers.  The result is a
/// function of the text alone.
pub uninterp spec fn json_control_of(s: Seq<char>) -> Option<ControlView>;

/// Relies on `serde_json::from_str::<serde_json::Value>` and on
/// `serde_json::Value::{as_str, as_u64}` together with `Value`'s index
/// operator (which yields null for absent keys): the text is parsed once
/// and the five known fields are moved into a `ControlMessage`.  The
/// parse is a deterministic function of the text, named by
/// `json_control_of`.
#[verifier::external_body]
fn parse_control_text(text: &str) -> (r: Option<ControlMessage>)
    ensures
        r is Some <==> json_control_of(text@) is Some,
        r matches Some(m) ==> json_control_of(text@) == Some(m@),
{
    let v: serde_json::Value = match serde_json::from_str(text) {
        Ok(v) => v,
        Err(_) => return None,
    };
    Some(ControlMessage {
        msg_type: v["type"].as_str().unwrap_or("").to_string(),
        stream_id: v["streamId"].as_str().map(|s| s.to_string()),
        offset: v["offset"].as_u64(),
        length: v["length"].as_u64().map(|n| n as usize),
        message: v["message"].as_str().map(|s| s.to_string()),
    })
}

/// Parse a text frame into a control message; `None` on invalid JSON.
pub fn parse_control_message(text: &str) -> (r: Option<ControlMessage>)
    ensures
        r is Some <==> json_control_of(text@) is Some,
        r matches Some(m) ==> json_control_of(text@) == Some(m@),
{
    parse_control_text(text)
}

/// How one character is written inside a JSON string: quote and backslash
/// get a backslash, control characters a `\u00XX` escape, the rest stand
/// as they are.
pub open spec fn spec_escape_char(c: char) -> Seq<char> {
    if c == '"' {
        seq!['\\', '"']
    } else if c == '\\' {
        seq!['\\', '\\']
    } else if (c as u32) < 32 {
        seq![
            '\\',
            'u',
            '0',
            '0',
            spec_hex_digit(((c as u32) / 16) as u8),
            spec_hex_digit(((c as u32) % 16) as u8),
        ]
    } else {
        seq![c]
    }
}

/// A character sequence escaped for a JSON string, character by
/// character.
pub open spec fn spec_escape(s: Seq<char>) -> Seq<char>
    decreases s.len(),
{
    if s.len() == 0 {
        Seq::empty()
    } else {
        spec_escape_char(s[0]) + spec_escape(s.drop_first())
    }
}

/// Escaping distributes over appending one character.
proof fn lemma_escape_push(s: Seq<char>, c: char)
    ensures
        spec_escape(s.push(c)) == spec_escape(s) + spec_escape_char(c),
    decreases s.len(),
{
    if s.len() == 0 {
        assert(s.push(c)[0] == c);
        assert(s.push(c).drop_first() =~= Seq::<char>::empty());
        assert(spec_escape(Seq::<char>::empty()) == Seq::<char>::empty());
        assert(spec_escape(s.push(c)) == spec_escape_char(c) + Seq::<char>::empty());
        assert(spec_escape(s.push(c)) =~= spec_escape(s) + spec_escape_char(c));
    } else {
        assert(s.push(c)[0] == s[0]);
        assert(s.push(c).drop_first() =~= s.drop_first().push(c));
        lemma_escape_push(s.drop_first(), c);
        assert(spec_escape(s.push(c)) == spec_escape_char(s[0]) + (spec_escape(s.drop_first())
            + spec_escape_char(c)));
        assert(spec_escape(s.push(c)) =~= spec_escape(s) + spec_escape_char(c));
    }
}

/// Escape a string for embedding in a JSON string literal.
pub fn json_escape(s: &str) -> (r: String)
    ensures
        r@ == spec_escape(s@),
{
    let len = s.unicode_len();
    let mut out = String::new();
    let mut i: usize = 0;
    while i < len
        invariant
            i <= len,
            len == s@.len(),
            out@ == spec_escape(s@.subrange(0, i as int)),
        decreases len - i,
    {
        let c = s.get_char(i);
        if c == '"' {
            push_char(&mut out, '\\');
            push_char(&mut out, '"');
        } else if c == '\\' {
            push_char(&mut out, '\\');
            push_char(&mut out, '\\');
        } else if (c as u32) < 32 {
            let code = c as u32;
            push_char(&mut out, '\\');
            push_char(&mut out, 'u');
            push_char(&mut out, '0');
            push_char(&mut out, '0');
            push_char(&mut out, crate::text::hex_digit((code / 16) as u8));
            push_char(&mut out, crate::text::hex_digit((code % 16) as u8));
        } else {
            push_char(&mut out, c);
        }
        proof {
            assert(s@.subrange(0, i + 1) =~= s@.subrange(0, i as int).push(s@[i as int]));
            lemma_escape_push(s@.subrange(0, i as int), s@[i as int]);
            assert(out@ =~= spec_escape(s@.subrange(0, i + 1)));
        }
        i += 1;
    }
    proof {
        assert(s@.subrange(0, s@.len() as int) =~= s@);
    }
    out
}

/// The JSON text of a control message: the known fields in order, absent
/// ones skipped, field names in camelCase, strings escaped.
pub open spec fn spec_control_json(v: ControlView) -> Seq<char> {
    "{\"type\":\""@ + spec_escape(v.msg_type) + "\""@ + (match v.stream_id {
        Some(s) => ",\"streamId\":\""@ + spec_escape(s) + "\""@,
        None => Seq::<char>::empty(),
    }) + (match v.offset {
        Some(o) => ",\"offset\":"@ + spec_u64_dec(o),
        None => Seq::<char>::empty(),
    }) + (match v.length {
        Some(l) => ",\"length\":"@ + spec_u64_dec(l as u64),
        None => Seq::<char>::empty(),
    }) + (match v.message {
        Some(t) => ",\"message\":\""@ + spec_escape(t) + "\""@,
        None => Seq::<char>::empty(),
    }) + "}"@
}

/// Render a control message as JSON text.
#[verifier::rlimit(50)]
pub fn control_to_json(msg: &ControlMessage) -> (r: String)
    ensures
        r@ == spec_control_json(msg@),
{
    let mut out = String::from_str("{\"type\":\"");
    out.append(json_escape(msg.msg_type.as_str()).as_str());
    out.append("\"");
    let ghost p1 = "{\"type\":\""@ + spec_escape(msg@.msg_type) + "\""@;
    proof {
        assert(out@ =~= p1);
    }
    match msg.stream_id {
        Some(ref s) => {
            out.append(",\"streamId\":\"");
            out.append(json_escape(s.as_str()).as_str());
            out.append("\"");
        },
        None => {},
    }
    let ghost p2 = p1 + (match msg@.stream_id {
        Some(s) => ",\"streamId\":\""@ + spec_escape(s) + "\""@,
        None => Seq::<char>::empty(),
    });
    proof {
        assert(out@ =~= p2);
    }
    match msg.offset {
        Some(o) => {
            out.append(",\"offset\":");
            out.append(u64_to_dec(o).as_str());
        },
        None => {},
    }
    let ghost p3 = p2 + (match msg@.offset {
        Some(o) => ",\"offset\":"@ + spec_u64_dec(o),
        None => Seq::<char>::empty(),
    });
    proof {
        assert(out@ =~= p3);
    }
    match msg.length {
        Some(l) => {
            out.append(",\"length\":");
            out.append(u64_to_dec(l as u64).as_str());
        },
        None => {},
    }
    let ghost p4 = p3 + (match msg@.length {
        Some(l) => ",\"length\":"@ + spec_u64_dec(l as u64),
        None => Seq::<char>::empty(),
    });
    proof {
        assert(out@ =~= p4);
    }
    match msg.message {
        Some(ref t) => {
            out.append(",\"message\":\"");
            out.append(json_escape(t.as_str()).as_str());
            out.append("\"");
        },
        None => {},
    }
    let ghost p5 = p4 + (match msg@.message {
        Some(s) => ",\"message\":\""@ + spec_escape(s) + "\""@,
        None => Seq::<char>::empty(),
    });
    proof {
        assert(out@ =~= p5);
    }
    out.append("}");
    proof {
        assert(out@ =~= spec_control_json(msg@));
    }
    out
}

} // verus!
