//! Orders over the session of the user-data stream.
//!
//! The connection of the user-data stream is the only writer of its socket. Requests reach it as
//! commands, and each answer finds its way back by the identifier of its request.

use vstd::prelude::*;
use crate::json::{field, members, opt_text_at, string, Members};
use crate::table::TextSet;
use super::msg::wsapi::IdProbe;
use super::msg::{from_text, named, Fields, Message};

verus! {

/// A request to place or cancel an order: the frame to send and the identifier in it.
#[derive(Debug)]
pub struct WsApiCommand {
    pub id: String,
    pub text: String,
}

/// The identifier of a frame, where it has one.
pub open spec fn frame_id(text: Seq<char>) -> Option<Seq<char>> {
    match named(text, IdProbe::keys(), IdProbe::least()) {
        Some(r) => match opt_text_at(r, "id"@) {
            Some(id) => id,
            None => None,
        },
        None => None,
    }
}

/// The identifier of the pending request that a frame answers. The identifiers of a logon and of a
/// subscription are never pending, so their answers, and events, answer no request.
pub fn ws_api_response_id(text: &str, pending: &TextSet) -> (r: Option<String>)
    ensures
        match r {
            Some(id) => frame_id(text@) == Some(id@) && pending@.contains(id@),
            None => match frame_id(text@) {
                Some(id) => !pending@.contains(id),
                None => true,
            },
        },
{
    let probe: IdProbe = from_text(text)?;
    let id = probe.id?;
    if pending.contains(id.as_str()) {
        Some(id)
    } else {
        None
    }
}

/// The identifier of a frame that is an object is the string of its member `id`; a frame whose
/// identifier is missing, null or no string has none.
pub proof fn law_frames_are_identified_by_their_member(text: Seq<char>, r: Members)
    requires
        members(text) == Some(r),
    ensures
        field(r, "id"@) is None ==> frame_id(text) is None,
        field(r, "id"@) == Some("null"@) ==> frame_id(text) is None,
        field(r, "id"@) is Some && field(r, "id"@)->0 != "null"@ ==> frame_id(text) == string(
            field(r, "id"@)->0,
        ),
{
}

} // verus!
