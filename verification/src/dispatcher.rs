//! The outbound path: a unit from a caller becomes the bytes to write to
//! the peer's input stream.
//!
//! A unit is an envelope and, where the envelope is a request, the
//! completion handle of the caller that awaits the response. The handle is
//! registered before the bytes are returned, so the entry is in the table
//! before the peer can see the request, and so before any response to it.
//! Writing is left to the caller, which writes the bytes of each unit in
//! full, in the order in which the units came.

use vstd::prelude::*;
use crate::json::json_text;
use crate::pending::PendingTable;
use crate::protocol::{serialize, EncodeError};
use crate::router::{id_of, message_id, MessageId};
use crate::wire::frame;

verus! {

/// Why a unit was not dispatched. Nothing was registered, and nothing is to
/// be written. The handle comes back, so that its caller can be failed.
#[derive(Debug)]
pub enum DispatchError<H> {
    /// A handle came with an envelope whose `id` is missing, or is no
    /// unsigned integer: no response could ever find the handle.
    MissingId { handle: H },
    /// A request is already pending under the id.
    DuplicateId { id: u64, handle: H },
    /// The envelope has no JSON text. The handle that came with it, if one
    /// did, is returned.
    Encode { returned: Option<H>, source: EncodeError },
}

/// Whether a unit can go out, judged before anything is done with it.
pub enum Admission {
    /// No handle: nothing awaits a response.
    Notification,
    /// A handle, to be registered under this id.
    Request(u64),
    /// A handle, and no usable id.
    MissingId,
    /// A handle, and an id that is already pending.
    DuplicateId(u64),
}

/// Whether a unit can go out.
pub open spec fn admission<H>(table: Map<u64, H>, envelope: serde_json::Value, handle: Option<H>)
    -> Admission {
    match handle {
        None => Admission::Notification,
        Some(_) => match id_of(envelope) {
            MessageId::Number(id) => if table.contains_key(id) {
                Admission::DuplicateId(id)
            } else {
                Admission::Request(id)
            },
            _ => Admission::MissingId,
        },
    }
}

/// Prepares one unit for the peer: registers the handle, if there is one,
/// and returns the frame to write.
///
/// A unit without a handle never touches the table. A unit with a handle
/// adds exactly the entry for its id, and only if the frame is returned.
pub fn dispatch<H>(table: &mut PendingTable<H>, envelope: &serde_json::Value, handle: Option<H>)
    -> (dispatched: Result<Vec<u8>, DispatchError<H>>)
    ensures
        match dispatched {
            Ok(bytes) => {
                &&& json_text(*envelope) is Some
                &&& bytes@ == frame(json_text(*envelope)->0)
                &&& match admission(old(table)@, *envelope, handle) {
                    Admission::Notification => final(table)@ == old(table)@,
                    Admission::Request(id) => final(table)@ == old(table)@.insert(id, handle->0),
                    _ => false,
                }
            },
            Err(DispatchError::MissingId { handle: back }) => {
                &&& admission(old(table)@, *envelope, handle) is MissingId
                &&& handle == Some(back)
                &&& final(table)@ == old(table)@
            },
            Err(DispatchError::DuplicateId { id, handle: back }) => {
                &&& admission(old(table)@, *envelope, handle) == Admission::DuplicateId(id)
                &&& handle == Some(back)
                &&& final(table)@ == old(table)@
            },
            Err(DispatchError::Encode { returned: back, source }) => {
                &&& admission(old(table)@, *envelope, handle) is Notification || admission(
                    old(table)@,
                    *envelope,
                    handle,
                ) is Request
                &&& json_text(*envelope) is None
                &&& back == handle
                &&& final(table)@ == old(table)@
            },
        },
        handle is None ==> final(table)@ == old(table)@,
{
    match handle {
        None => match serialize(envelope) {
            Ok(bytes) => Ok(bytes),
            Err(source) => Err(DispatchError::Encode { returned: None, source }),
        },
        Some(handle) => match message_id(envelope) {
            MessageId::Number(id) => {
                if table.is_pending(id) {
                    Err(DispatchError::DuplicateId { id, handle })
                } else {
                    match serialize(envelope) {
                        Ok(bytes) => {
                            match table.register(id, handle) {
                                Ok(()) => Ok(bytes),
                                Err(handle) => Err(DispatchError::DuplicateId { id, handle }),
                            }
                        },
                        Err(source) => Err(
                            DispatchError::Encode { returned: Some(handle), source },
                        ),
                    }
                }
            },
            _ => Err(DispatchError::MissingId { handle }),
        },
    }
}

} // verus!
