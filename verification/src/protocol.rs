//! Messages in frames: a JSON value to the bytes of one frame, and the bytes
//! received so far to the next message.

use vstd::prelude::*;
use vstd::slice::slice_subrange;
use crate::json::{from_json_bytes, json_text, json_value, to_json_bytes};
use crate::jsonrpc::{add_header, scan_header};
use crate::wire::{
    frame, frame_scan, lemma_frame_is_read, lemma_header_scan_bounds, FrameScan, HeaderScan,
};

verus! {

/// A value has no JSON text.
#[derive(Debug)]
pub struct EncodeError {
    /// What `serde_json` reported.
    pub source: serde_json::Error,
}

/// What the bytes received so far hold.
#[derive(Debug, PartialEq)]
pub enum Decoded {
    /// No frame is complete yet. This is the normal state between reads.
    Incomplete,
    /// The header is malformed, or the body is no JSON text. Nothing that
    /// arrives later mends this.
    Malformed,
    /// A message, and the number of bytes to drop from the front of the
    /// buffer: the next frame starts there.
    Message { value: serde_json::Value, consumed: usize },
}

/// Why a buffer is not one message.
#[derive(Debug, Clone, Copy, PartialEq, Eq)]
pub enum DecodeError {
    /// The frame is not complete.
    Incomplete,
    /// The header is malformed, or the body is no JSON text.
    Malformed,
    /// Bytes follow the frame.
    TrailingBytes,
}

/// What a receiver makes of the bytes it holds: the first frame, with its
/// body read as JSON.
pub open spec fn decoded(buf: Seq<u8>) -> Decoded {
    match frame_scan(buf) {
        FrameScan::NeedMore => Decoded::Incomplete,
        FrameScan::Malformed => Decoded::Malformed,
        FrameScan::Complete { body_start, end } => match json_value(
            buf.subrange(body_start as int, end as int),
        ) {
            Some(value) => Decoded::Message { value, consumed: end },
            None => Decoded::Malformed,
        },
    }
}

/// Writes a value as one frame: its JSON text, behind a header that gives
/// the length of that text in bytes.
pub fn serialize(msg: &serde_json::Value) -> (framed: Result<Vec<u8>, EncodeError>)
    ensures
        match framed {
            Ok(bytes) => json_text(*msg) is Some && bytes@ == frame(json_text(*msg)->0),
            Err(_) => json_text(*msg) is None,
        },
{
    match to_json_bytes(msg) {
        Ok(body) => Ok(add_header(body.as_slice())),
        Err(source) => Err(EncodeError { source }),
    }
}

/// Reads the first message from the bytes received so far.
pub fn decode(buf: &[u8]) -> (found: Decoded)
    ensures
        found == decoded(buf@),
{
    match scan_header(buf) {
        HeaderScan::NeedMore => Decoded::Incomplete,
        HeaderScan::Malformed => Decoded::Malformed,
        HeaderScan::Complete { body_start, length } => {
            proof {
                lemma_header_scan_bounds(buf@);
            }
            if buf.len() - body_start < length {
                Decoded::Incomplete
            } else {
                let end = body_start + length;
                let body = slice_subrange(buf, body_start, end);
                match from_json_bytes(body) {
                    Ok(value) => Decoded::Message { value, consumed: end },
                    Err(_) => Decoded::Malformed,
                }
            }
        },
    }
}

/// Reads a buffer that holds one message, no less and no more.
pub fn deserialize(msg: &[u8]) -> (read: Result<serde_json::Value, DecodeError>)
    ensures
        read == match decoded(msg@) {
            Decoded::Incomplete => Err::<serde_json::Value, DecodeError>(DecodeError::Incomplete),
            Decoded::Malformed => Err(DecodeError::Malformed),
            Decoded::Message { value, consumed } => if consumed == msg@.len() {
                Ok(value)
            } else {
                Err(DecodeError::TrailingBytes)
            },
        },
{
    match decode(msg) {
        Decoded::Incomplete => Err(DecodeError::Incomplete),
        Decoded::Malformed => Err(DecodeError::Malformed),
        Decoded::Message { value, consumed } => if consumed == msg.len() {
            Ok(value)
        } else {
            Err(DecodeError::TrailingBytes)
        },
    }
}

/// A receiver that holds a frame, followed by anything, reads the message
/// whose text was framed, and takes the frame and nothing more from the
/// buffer. Where the text is no JSON, the frame is malformed.
pub proof fn lemma_framed_text_is_decoded(text: Seq<u8>, rest: Seq<u8>)
    requires
        frame(text).len() <= usize::MAX,
    ensures
        decoded(frame(text) + rest) == match json_value(text) {
            Some(value) => Decoded::Message { value, consumed: frame(text).len() as usize },
            None => Decoded::Malformed,
        },
{
    lemma_frame_is_read(text, rest);
}

} // verus!
