//! SESP framing: the line-oriented command parser and response serializer
//! that carries every interaction with the broker.
//!
//! A request is one line ending in a newline. Its first byte is the verb,
//! the rest up to (and excluding) the newline is the payload. Responses are
//! one line: a `+` or `-` tag, the text, and a terminating newline.

use vstd::prelude::*;
use vstd::utf8::encode_utf8;

use crate::num::{all_digits_b, dec_val_b, parse_dec_b_spec, parse_dec_bytes};
use crate::types::Message;

verus! {

/// Mathematical record of a parsed command.
pub ghost enum CommandModel {
    CreateTopic(Seq<u8>),
    DeleteTopic(Seq<u8>),
    SelectTopic(Seq<u8>),
    SetReadOffset(usize),
    ReadMessage,
    PublishMessage(Seq<u8>),
    InvalidCommand,
}

/// What one request line parses to. A line shorter than two bytes, not
/// ending in a newline, with an unknown verb, with a non-numeric offset
/// payload, or a read with a payload, is invalid. A publish keeps the
/// line's own newline as the message terminator.
pub open spec fn parse_command_spec(s: Seq<u8>) -> CommandModel {
    if s.len() < 2 {
        CommandModel::InvalidCommand
    } else if s.last() != 10u8 {
        CommandModel::InvalidCommand
    } else {
        let data = s.subrange(1, s.len() - 1);
        if s[0] == 35u8 {
            CommandModel::CreateTopic(data)
        } else if s[0] == 33u8 {
            CommandModel::DeleteTopic(data)
        } else if s[0] == 64u8 {
            CommandModel::SelectTopic(data)
        } else if s[0] == 62u8 {
            CommandModel::PublishMessage(s.subrange(1, s.len() as int))
        } else if s[0] == 36u8 {
            match parse_dec_b_spec(data) {
                Some(offset) => CommandModel::SetReadOffset(offset),
                None => CommandModel::InvalidCommand,
            }
        } else if s[0] == 60u8 && data.len() == 0 {
            CommandModel::ReadMessage
        } else {
            CommandModel::InvalidCommand
        }
    }
}

/// One parsed inbound command.
#[derive(Debug, PartialEq)]
pub enum Command {
    CreateTopic(Vec<u8>),
    DeleteTopic(Vec<u8>),
    SelectTopic(Vec<u8>),
    SetReadOffset(usize),
    ReadMessage,
    PublishMessage(Message),
    InvalidCommand,
}

impl View for Command {
    type V = CommandModel;

    open spec fn view(&self) -> CommandModel {
        match self {
            Command::CreateTopic(n) => CommandModel::CreateTopic(n@),
            Command::DeleteTopic(n) => CommandModel::DeleteTopic(n@),
            Command::SelectTopic(n) => CommandModel::SelectTopic(n@),
            Command::SetReadOffset(o) => CommandModel::SetReadOffset(*o),
            Command::ReadMessage => CommandModel::ReadMessage,
            Command::PublishMessage(m) => CommandModel::PublishMessage(m.bytes()),
            Command::InvalidCommand => CommandModel::InvalidCommand,
        }
    }
}

/// Copies the byte range `[from, to)` of `v`.
fn sub_vec(v: &Vec<u8>, from: usize, to: usize) -> (r: Vec<u8>)
    requires
        from <= to <= v@.len(),
    ensures
        r@ == v@.subrange(from as int, to as int),
{
    let mut r: Vec<u8> = Vec::new();
    let mut i = from;
    while i < to
        invariant
            from <= i <= to <= v@.len(),
            r@ == v@.subrange(from as int, i as int),
        decreases to - i,
    {
        r.push(v[i]);
        proof {
            assert(v@.subrange(from as int, i + 1) =~= v@.subrange(from as int, i as int).push(
                v@[i as int],
            ));
        }
        i = i + 1;
    }
    r
}

impl Command {
    /// Parses one request line.
    pub fn from(value: Vec<u8>) -> (c: Command)
        ensures
            c@ == parse_command_spec(value@),
            (c matches Command::PublishMessage(m) ==> m.spec_offset() is None),
    {
        let len = value.len();
        if len < 2 {
            return Command::InvalidCommand;
        }
        if value[len - 1] != 10u8 {
            return Command::InvalidCommand;
        }
        let action_byte = value[0];
        if action_byte == 35u8 {
            Command::CreateTopic(sub_vec(&value, 1, len - 1))
        } else if action_byte == 33u8 {
            Command::DeleteTopic(sub_vec(&value, 1, len - 1))
        } else if action_byte == 64u8 {
            Command::SelectTopic(sub_vec(&value, 1, len - 1))
        } else if action_byte == 62u8 {
            Command::PublishMessage(Message::from(sub_vec(&value, 1, len)))
        } else if action_byte == 36u8 {
            match parse_dec_bytes(&value, 1, len - 1) {
                Some(offset) => Command::SetReadOffset(offset),
                None => Command::InvalidCommand,
            }
        } else if action_byte == 60u8 && len == 2 {
            Command::ReadMessage
        } else {
            Command::InvalidCommand
        }
    }
}

/// Mathematical record of a response.
pub ghost enum ResponseModel {
    Positive(Seq<char>),
    Negative(Seq<char>),
}

/// The response text, whichever the tag.
pub open spec fn response_text(m: ResponseModel) -> Seq<char> {
    match m {
        ResponseModel::Positive(s) => s,
        ResponseModel::Negative(s) => s,
    }
}

pub open spec fn response_is_positive(m: ResponseModel) -> bool {
    m is Positive
}

/// Guarantees a single terminating newline: appends one unless the bytes
/// already end with one.
pub open spec fn terminate_nl(d: Seq<u8>) -> Seq<u8> {
    if d.len() > 0 && d.last() == 10u8 {
        d
    } else {
        d.push(10u8)
    }
}

/// The wire form of a response: the tag byte, the UTF-8 of the text, and a
/// terminating newline.
pub open spec fn response_bytes(m: ResponseModel) -> Seq<u8> {
    let tag: u8 = if response_is_positive(m) {
        43u8
    } else {
        45u8
    };
    terminate_nl(seq![tag] + encode_utf8(response_text(m)))
}

/// Reading a response line back: the tag decides positive or negative, the
/// bytes between tag and final newline are the text.
pub open spec fn decode_response_bytes(r: Seq<u8>) -> Option<(bool, Seq<u8>)> {
    if r.len() >= 2 && r.last() == 10u8 && (r[0] == 43u8 || r[0] == 45u8) {
        Some((r[0] == 43u8, r.subrange(1, r.len() - 1)))
    } else {
        None
    }
}

/// Drops one trailing newline, if present.
pub open spec fn strip_trailing_nl(d: Seq<u8>) -> Seq<u8> {
    if d.len() > 0 && d.last() == 10u8 {
        d.drop_last()
    } else {
        d
    }
}

/// One outbound response: a positive or negative acknowledgement carrying
/// a single-line diagnostic text.
#[derive(Debug, PartialEq)]
pub enum Response {
    Positive(String),
    Negative(String),
}

impl View for Response {
    type V = ResponseModel;

    open spec fn view(&self) -> ResponseModel {
        match self {
            Response::Positive(s) => ResponseModel::Positive(s@),
            Response::Negative(s) => ResponseModel::Negative(s@),
        }
    }
}

impl Response {
    /// Serializes the response for the wire.
    pub fn as_vec_of_u8(self) -> (r: Vec<u8>)
        ensures
            r@ == response_bytes(self@),
    {
        let ghost model = self@;
        let mut ans: Vec<u8> = Vec::new();
        match self {
            Response::Negative(data) => {
                ans.push(45u8);
                ans.extend_from_slice(data.as_str().as_bytes());
            },
            Response::Positive(data) => {
                ans.push(43u8);
                ans.extend_from_slice(data.as_str().as_bytes());
            },
        }
        proof {
            let tag: u8 = if response_is_positive(model) {
                43u8
            } else {
                45u8
            };
            assert(ans@ =~= seq![tag] + encode_utf8(response_text(model)));
        }
        let n = ans.len();
        if ans[n - 1] != 10u8 {
            ans.push(10u8);
        }
        ans
    }
}

/// Response serialization is reversible up to trailing-newline
/// normalization: decoding the wire form recovers the tag and the text's
/// bytes, less one trailing newline the text may itself have carried.
pub proof fn lemma_response_round_trip(m: ResponseModel)
    ensures
        decode_response_bytes(response_bytes(m)) == Some(
            (response_is_positive(m), strip_trailing_nl(encode_utf8(response_text(m)))),
        ),
{
    let tag: u8 = if response_is_positive(m) {
        43u8
    } else {
        45u8
    };
    let data = encode_utf8(response_text(m));
    let body = seq![tag] + data;
    let r = response_bytes(m);
    if data.len() > 0 && data.last() == 10u8 {
        assert(r == body);
        assert(r.last() == 10u8);
        assert(r.subrange(1, r.len() - 1) =~= data.drop_last());
    } else {
        assert(r == body.push(10u8));
        assert(r.last() == 10u8);
        assert(r[0] == tag);
        assert(r.subrange(1, r.len() - 1) =~= data);
    }
}

/// Every valid verb/payload pair parses to its variant, and a malformed
/// line never does: the framing enumerated by the protocol is exact.
pub proof fn lemma_command_parse_exact(verb: u8, payload: Seq<u8>)
    ensures
        verb == 35 ==> parse_command_spec(seq![verb] + payload + seq![10u8])
            == CommandModel::CreateTopic(payload),
        verb == 33 ==> parse_command_spec(seq![verb] + payload + seq![10u8])
            == CommandModel::DeleteTopic(payload),
        verb == 64 ==> parse_command_spec(seq![verb] + payload + seq![10u8])
            == CommandModel::SelectTopic(payload),
        verb == 62 ==> parse_command_spec(seq![verb] + payload + seq![10u8])
            == CommandModel::PublishMessage(payload.push(10u8)),
        verb == 36 && payload.len() >= 1 && all_digits_b(payload) && dec_val_b(payload)
            <= usize::MAX ==> parse_command_spec(seq![verb] + payload + seq![10u8])
            == CommandModel::SetReadOffset(dec_val_b(payload) as usize),
        verb == 36 && !(payload.len() >= 1 && all_digits_b(payload) && dec_val_b(payload)
            <= usize::MAX) ==> parse_command_spec(seq![verb] + payload + seq![10u8])
            == CommandModel::InvalidCommand,
        verb == 60 && payload.len() == 0 ==> parse_command_spec(seq![verb] + payload + seq![10u8])
            == CommandModel::ReadMessage,
        verb == 60 && payload.len() > 0 ==> parse_command_spec(seq![verb] + payload + seq![10u8])
            == CommandModel::InvalidCommand,
        !(verb == 35 || verb == 33 || verb == 64 || verb == 62 || verb == 36 || verb == 60)
            ==> parse_command_spec(seq![verb] + payload + seq![10u8])
            == CommandModel::InvalidCommand,
{
    let s = seq![verb] + payload + seq![10u8];
    assert(s.len() == payload.len() + 2);
    assert(s[0] == verb);
    assert(s.last() == 10u8);
    assert(s.subrange(1, s.len() - 1) =~= payload);
    assert(s.subrange(1, s.len() as int) =~= payload.push(10u8));
}

/// A line shorter than two bytes, or one not ending in a newline, is
/// always invalid.
pub proof fn lemma_command_parse_malformed(s: Seq<u8>)
    ensures
        s.len() < 2 ==> parse_command_spec(s) == CommandModel::InvalidCommand,
        s.len() >= 1 && s.last() != 10u8 ==> parse_command_spec(s) == CommandModel::InvalidCommand,
{
}

} // verus!
