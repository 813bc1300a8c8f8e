//! Matrix rooms: the routing of room endpoint paths, the room ids of
//! conversations, and the parsing of edit events.

use crate::agent_convert::MatrixContent;
use crate::auth::{decode_path_segment, decoded_segment};
use crate::num::{format_i64, int_text, parse_i64, parse_i64_spec};
use crate::text::{
    chars_string, has_prefix, is_prefix, push_chars, split_chars, split_on, str_chars,
    str_equal,
};
use vstd::prelude::*;

verus! {

/// The endpoint a room path names. `S` is the type of its texts.
#[derive(Debug, Clone, PartialEq, Eq)]
pub enum RoomEndpoint<S> {
    Members,
    JoinedMembers,
    ReadMarkers,
    /// `PUT .../state/m.room.encryption`.
    SetEncryption,
    /// Reading the `m.room.encryption` state.
    EncryptionState,
    /// Reading the `m.room.member` state of a user.
    MemberState { user_id: S },
    Typing,
    SendMessage,
    Reaction,
    SendEncrypted,
    Redact,
    /// A read receipt for an event.
    Receipt { event_id: S },
}

/// Why a room path was refused.
#[derive(Debug, Clone, PartialEq, Eq)]
pub enum RoomPathError<S> {
    /// The path is not under `/_matrix/client/v3/rooms/`.
    InvalidPath,
    /// A segment is not valid percent-encoded UTF-8.
    InvalidEncoding,
    InvalidPathFormat,
    MissingStateEventType,
    MissingMemberUserId,
    UnknownStateEventType,
    UnsupportedSendType { send_type: S },
    InvalidSendTypeEncoding,
    MissingSendType,
    UnsupportedReceiptType { receipt_type: S },
    InvalidReceiptPath,
}

/// The prefix of room endpoint paths.
pub open spec fn rooms_prefix() -> Seq<char> {
    "/_matrix/client/v3/rooms/"@
}

/// The decoded segment `i` of `parts`, `None` when it is missing or badly encoded.
pub open spec fn decoded_part(parts: Seq<Seq<char>>, i: int) -> Option<Seq<char>> {
    if 0 <= i < parts.len() {
        decoded_segment(parts[i])
    } else {
        None
    }
}

/// The routing of a `state` path to what it reads.
pub open spec fn room_state_route(parts: Seq<Seq<char>>) -> Result<
    RoomEndpoint<Seq<char>>,
    RoomPathError<Seq<char>>,
> {
    if parts.len() < 3 {
        Err(RoomPathError::MissingStateEventType)
    } else {
        match decoded_segment(parts[2]) {
            None => Err(RoomPathError::InvalidEncoding),
            Some(et) => if et == "m.room.member"@ {
                if parts.len() < 4 {
                    Err(RoomPathError::MissingMemberUserId)
                } else {
                    match decoded_segment(parts[3]) {
                        None => Err(RoomPathError::InvalidEncoding),
                        Some(u) => Ok(RoomEndpoint::MemberState { user_id: u }),
                    }
                }
            } else if et == "m.room.encryption"@ {
                Ok(RoomEndpoint::EncryptionState)
            } else {
                Err(RoomPathError::UnknownStateEventType)
            },
        }
    }
}

/// The routing of a `state` path, a `PUT` of the encryption state included.
pub open spec fn state_route(parts: Seq<Seq<char>>, is_put: bool) -> Result<
    RoomEndpoint<Seq<char>>,
    RoomPathError<Seq<char>>,
> {
    if is_put && parts.len() >= 3 {
        match decoded_segment(parts[2]) {
            None => Err(RoomPathError::InvalidEncoding),
            Some(et) => if et == "m.room.encryption"@ {
                Ok(RoomEndpoint::SetEncryption)
            } else {
                room_state_route(parts)
            },
        }
    } else {
        room_state_route(parts)
    }
}

/// The routing of a `send` path by its event type.
pub open spec fn send_route(parts: Seq<Seq<char>>) -> Result<
    RoomEndpoint<Seq<char>>,
    RoomPathError<Seq<char>>,
> {
    if parts.len() < 3 {
        Err(RoomPathError::MissingSendType)
    } else {
        match decoded_segment(parts[2]) {
            None => Err(RoomPathError::InvalidSendTypeEncoding),
            Some(st) => if st == "m.room.message"@ {
                Ok(RoomEndpoint::SendMessage)
            } else if st == "m.reaction"@ {
                Ok(RoomEndpoint::Reaction)
            } else if st == "m.room.encrypted"@ {
                Ok(RoomEndpoint::SendEncrypted)
            } else {
                Err(RoomPathError::UnsupportedSendType { send_type: st })
            },
        }
    }
}

/// The routing of a `receipt` path.
pub open spec fn receipt_route(parts: Seq<Seq<char>>) -> Result<
    RoomEndpoint<Seq<char>>,
    RoomPathError<Seq<char>>,
> {
    match (decoded_part(parts, 2), decoded_part(parts, 3)) {
        (Some(rt), Some(eid)) => if rt == "m.read"@ {
            Ok(RoomEndpoint::Receipt { event_id: eid })
        } else {
            Err(RoomPathError::UnsupportedReceiptType { receipt_type: rt })
        },
        _ => Err(RoomPathError::InvalidReceiptPath),
    }
}

/// The routing of the segments after the room id, by the undecoded second
/// segment first, then by the decoded one.
pub open spec fn endpoint_route(parts: Seq<Seq<char>>, is_put: bool) -> Result<
    RoomEndpoint<Seq<char>>,
    RoomPathError<Seq<char>>,
> {
    if parts.len() == 2 && parts[1] == "members"@ {
        Ok(RoomEndpoint::Members)
    } else if parts.len() == 2 && parts[1] == "joined_members"@ {
        Ok(RoomEndpoint::JoinedMembers)
    } else if parts.len() == 2 && parts[1] == "read_markers"@ {
        Ok(RoomEndpoint::ReadMarkers)
    } else if parts.len() >= 2 && parts[1] == "state"@ {
        state_route(parts, is_put)
    } else if parts.len() < 2 {
        Err(RoomPathError::InvalidPathFormat)
    } else {
        match decoded_segment(parts[1]) {
            None => Err(RoomPathError::InvalidEncoding),
            Some(ev) => if ev == "typing"@ {
                Ok(RoomEndpoint::Typing)
            } else if ev == "send"@ {
                send_route(parts)
            } else if ev == "redact"@ {
                Ok(RoomEndpoint::Redact)
            } else if ev == "receipt"@ {
                receipt_route(parts)
            } else {
                Err(RoomPathError::InvalidPathFormat)
            },
        }
    }
}

/// The room id and endpoint a room path names.
pub open spec fn room_route(path: Seq<char>, is_put: bool) -> Result<
    (Seq<char>, RoomEndpoint<Seq<char>>),
    RoomPathError<Seq<char>>,
> {
    if !is_prefix(rooms_prefix(), path) {
        Err(RoomPathError::InvalidPath)
    } else {
        let parts = split_on(path.skip(rooms_prefix().len() as int), '/');
        match decoded_segment(parts[0]) {
            None => Err(RoomPathError::InvalidEncoding),
            Some(room_id) => match endpoint_route(parts, is_put) {
                Ok(e) => Ok((room_id, e)),
                Err(x) => Err(x),
            },
        }
    }
}

/// The texts of an endpoint.
pub open spec fn endpoint_view(e: RoomEndpoint<String>) -> RoomEndpoint<Seq<char>> {
    match e {
        RoomEndpoint::Members => RoomEndpoint::Members,
        RoomEndpoint::JoinedMembers => RoomEndpoint::JoinedMembers,
        RoomEndpoint::ReadMarkers => RoomEndpoint::ReadMarkers,
        RoomEndpoint::SetEncryption => RoomEndpoint::SetEncryption,
        RoomEndpoint::EncryptionState => RoomEndpoint::EncryptionState,
        RoomEndpoint::MemberState { user_id } => RoomEndpoint::MemberState { user_id: user_id@ },
        RoomEndpoint::Typing => RoomEndpoint::Typing,
        RoomEndpoint::SendMessage => RoomEndpoint::SendMessage,
        RoomEndpoint::Reaction => RoomEndpoint::Reaction,
        RoomEndpoint::SendEncrypted => RoomEndpoint::SendEncrypted,
        RoomEndpoint::Redact => RoomEndpoint::Redact,
        RoomEndpoint::Receipt { event_id } => RoomEndpoint::Receipt { event_id: event_id@ },
    }
}

/// The texts of a path error.
pub open spec fn path_error_view(e: RoomPathError<String>) -> RoomPathError<Seq<char>> {
    match e {
        RoomPathError::InvalidPath => RoomPathError::InvalidPath,
        RoomPathError::InvalidEncoding => RoomPathError::InvalidEncoding,
        RoomPathError::InvalidPathFormat => RoomPathError::InvalidPathFormat,
        RoomPathError::MissingStateEventType => RoomPathError::MissingStateEventType,
        RoomPathError::MissingMemberUserId => RoomPathError::MissingMemberUserId,
        RoomPathError::UnknownStateEventType => RoomPathError::UnknownStateEventType,
        RoomPathError::UnsupportedSendType { send_type } => RoomPathError::UnsupportedSendType {
            send_type: send_type@,
        },
        RoomPathError::InvalidSendTypeEncoding => RoomPathError::InvalidSendTypeEncoding,
        RoomPathError::MissingSendType => RoomPathError::MissingSendType,
        RoomPathError::UnsupportedReceiptType { receipt_type } =>
            RoomPathError::UnsupportedReceiptType { receipt_type: receipt_type@ },
        RoomPathError::InvalidReceiptPath => RoomPathError::InvalidReceiptPath,
    }
}

/// The texts of a routing outcome.
pub open spec fn route_view(
    r: Result<(String, RoomEndpoint<String>), RoomPathError<String>>,
) -> Result<(Seq<char>, RoomEndpoint<Seq<char>>), RoomPathError<Seq<char>>> {
    match r {
        Ok((room_id, e)) => Ok((room_id@, endpoint_view(e))),
        Err(x) => Err(path_error_view(x)),
    }
}

/// The texts of an endpoint outcome.
pub open spec fn endpoint_result_view(r: Result<RoomEndpoint<String>, RoomPathError<String>>) -> Result<
    RoomEndpoint<Seq<char>>,
    RoomPathError<Seq<char>>,
> {
    match r {
        Ok(e) => Ok(endpoint_view(e)),
        Err(x) => Err(path_error_view(x)),
    }
}

/// The pieces of a split, as texts.
pub open spec fn parts_view(parts: Seq<Vec<char>>) -> Seq<Seq<char>> {
    parts.map_values(|p: Vec<char>| p@)
}

/// Decodes the segment made of the characters `p`.
fn decode_part(p: &Vec<char>) -> (r: Option<String>)
    ensures
        match r {
            Some(s) => decoded_segment(p@) == Some(s@),
            None => decoded_segment(p@) is None,
        },
{
    let s = chars_string(p, 0, p.len());
    assert(p@.subrange(0, p@.len() as int) =~= p@);
    match decode_path_segment(s.as_str()) {
        Ok(d) => Some(d),
        Err(_) => None,
    }
}

/// Whether the characters `p` spell `lit`.
fn part_is(p: &Vec<char>, lit: &str) -> (b: bool)
    ensures
        b == (p@ == lit@),
{
    let s = chars_string(p, 0, p.len());
    assert(p@.subrange(0, p@.len() as int) =~= p@);
    str_equal(s.as_str(), lit)
}

/// Routes the `state` reads.
fn route_room_state(parts: &Vec<Vec<char>>) -> (r: Result<RoomEndpoint<String>, RoomPathError<String>>)
    ensures
        endpoint_result_view(r) == room_state_route(parts_view(parts@)),
{
    let ghost pv = parts_view(parts@);
    if parts.len() < 3 {
        return Err(RoomPathError::MissingStateEventType);
    }
    let et = match decode_part(&parts[2]) {
        Some(et) => et,
        None => return Err(RoomPathError::InvalidEncoding),
    };
    if str_equal(et.as_str(), "m.room.member") {
        if parts.len() < 4 {
            return Err(RoomPathError::MissingMemberUserId);
        }
        match decode_part(&parts[3]) {
            Some(u) => Ok(RoomEndpoint::MemberState { user_id: u }),
            None => Err(RoomPathError::InvalidEncoding),
        }
    } else if str_equal(et.as_str(), "m.room.encryption") {
        Ok(RoomEndpoint::EncryptionState)
    } else {
        Err(RoomPathError::UnknownStateEventType)
    }
}

/// Routes a `send` by its event type.
fn route_send(parts: &Vec<Vec<char>>) -> (r: Result<RoomEndpoint<String>, RoomPathError<String>>)
    ensures
        endpoint_result_view(r) == send_route(parts_view(parts@)),
{
    if parts.len() < 3 {
        return Err(RoomPathError::MissingSendType);
    }
    let st = match decode_part(&parts[2]) {
        Some(st) => st,
        None => return Err(RoomPathError::InvalidSendTypeEncoding),
    };
    if str_equal(st.as_str(), "m.room.message") {
        Ok(RoomEndpoint::SendMessage)
    } else if str_equal(st.as_str(), "m.reaction") {
        Ok(RoomEndpoint::Reaction)
    } else if str_equal(st.as_str(), "m.room.encrypted") {
        Ok(RoomEndpoint::SendEncrypted)
    } else {
        Err(RoomPathError::UnsupportedSendType { send_type: st })
    }
}

/// Routes a `receipt`.
fn route_receipt(parts: &Vec<Vec<char>>) -> (r: Result<RoomEndpoint<String>, RoomPathError<String>>)
    ensures
        endpoint_result_view(r) == receipt_route(parts_view(parts@)),
{
    let rt = if parts.len() >= 3 {
        decode_part(&parts[2])
    } else {
        None
    };
    let eid = if parts.len() >= 4 {
        decode_part(&parts[3])
    } else {
        None
    };
    match (rt, eid) {
        (Some(rt), Some(eid)) => if str_equal(rt.as_str(), "m.read") {
            Ok(RoomEndpoint::Receipt { event_id: eid })
        } else {
            Err(RoomPathError::UnsupportedReceiptType { receipt_type: rt })
        },
        _ => Err(RoomPathError::InvalidReceiptPath),
    }
}

/// Routes the segments after the room id.
fn route_endpoint(parts: &Vec<Vec<char>>, is_put: bool) -> (r: Result<
    RoomEndpoint<String>,
    RoomPathError<String>,
>)
    ensures
        endpoint_result_view(r) == endpoint_route(parts_view(parts@), is_put),
{
    let n = parts.len();
    if n == 2 && part_is(&parts[1], "members") {
        return Ok(RoomEndpoint::Members);
    }
    if n == 2 && part_is(&parts[1], "joined_members") {
        return Ok(RoomEndpoint::JoinedMembers);
    }
    if n == 2 && part_is(&parts[1], "read_markers") {
        return Ok(RoomEndpoint::ReadMarkers);
    }
    if n >= 2 && part_is(&parts[1], "state") {
        if is_put && n >= 3 {
            match decode_part(&parts[2]) {
                None => return Err(RoomPathError::InvalidEncoding),
                Some(et) => if str_equal(et.as_str(), "m.room.encryption") {
                    return Ok(RoomEndpoint::SetEncryption);
                },
            }
        }
        return route_room_state(parts);
    }
    if n < 2 {
        return Err(RoomPathError::InvalidPathFormat);
    }
    let ev = match decode_part(&parts[1]) {
        Some(ev) => ev,
        None => return Err(RoomPathError::InvalidEncoding),
    };
    if str_equal(ev.as_str(), "typing") {
        Ok(RoomEndpoint::Typing)
    } else if str_equal(ev.as_str(), "send") {
        route_send(parts)
    } else if str_equal(ev.as_str(), "redact") {
        Ok(RoomEndpoint::Redact)
    } else if str_equal(ev.as_str(), "receipt") {
        route_receipt(parts)
    } else {
        Err(RoomPathError::InvalidPathFormat)
    }
}

/// Routes a room endpoint request: the decoded room id and the endpoint its
/// path names, `is_put` telling whether the request is a `PUT`.
pub fn route_room_request(path: &str, is_put: bool) -> (r: Result<
    (String, RoomEndpoint<String>),
    RoomPathError<String>,
>)
    ensures
        route_view(r) == room_route(path@, is_put),
{
    let v = str_chars(path);
    let pre = str_chars("/_matrix/client/v3/rooms/");
    if !has_prefix(&v, &pre) {
        return Err(RoomPathError::InvalidPath);
    }
    let rest = crate::text::sub_chars(&v, pre.len(), v.len());
    assert(rest@ =~= path@.skip(rooms_prefix().len() as int));
    let parts = split_chars(&rest, '/');
    let room_id = match decode_part(&parts[0]) {
        Some(r) => r,
        None => return Err(RoomPathError::InvalidEncoding),
    };
    match route_endpoint(&parts, is_put) {
        Ok(e) => Ok((room_id, e)),
        Err(x) => Err(x),
    }
}

// ----- room ids -----

/// Whom a message is for: a user (a direct conversation) or a group.
#[derive(Debug, Clone, Copy, PartialEq, Eq)]
pub enum MessageTarget {
    User { uid: i64 },
    Group { gid: i64 },
}

/// Why a room id was refused.
#[derive(Debug, Clone, Copy, PartialEq, Eq)]
pub enum RoomIdError {
    InvalidDmFormat,
    InvalidSenderUid,
    InvalidBotUid,
    /// The token's user is not the bot of the direct conversation.
    Unauthorized,
    InvalidGroupFormat,
    InvalidGid,
    UnknownFormat,
}

/// The room id of a conversation: `!dm_<sender>_<bot>:<domain>` for a message
/// from `from_uid` to a user, `!group_<gid>:<domain>` for a group.
pub open spec fn room_id_of(from_uid: i64, target: MessageTarget, domain: Seq<char>) -> Seq<char> {
    match target {
        MessageTarget::User { uid } => "!dm_"@ + int_text(from_uid as int) + "_"@ + int_text(
            uid as int,
        ) + ":"@ + domain,
        MessageTarget::Group { gid } => "!group_"@ + int_text(gid as int) + ":"@ + domain,
    }
}

/// `s` without the suffix `suf`, when it ends with it.
pub open spec fn strip_suffix(s: Seq<char>, suf: Seq<char>) -> Option<Seq<char>> {
    if s.len() >= suf.len() && s.skip(s.len() - suf.len()) == suf {
        Some(s.take(s.len() - suf.len()))
    } else {
        None
    }
}

/// The target and sender a room id names for the user `uid`: a direct
/// conversation is the bot's own (`uid`), and its sender is the target; a
/// group room sends as `uid`.
pub open spec fn room_target(room_id: Seq<char>, uid: i64, domain: Seq<char>) -> Result<
    (MessageTarget, i64),
    RoomIdError,
> {
    let suffix = ":"@ + domain;
    if is_prefix("!dm_"@, room_id) {
        match strip_suffix(room_id.skip("!dm_"@.len() as int), suffix) {
            None => Err(RoomIdError::InvalidDmFormat),
            Some(part) => {
                let parts = split_on(part, '_');
                if parts.len() != 2 {
                    Err(RoomIdError::InvalidDmFormat)
                } else {
                    match parse_i64_spec(parts[0]) {
                        None => Err(RoomIdError::InvalidSenderUid),
                        Some(sender) => match parse_i64_spec(parts[1]) {
                            None => Err(RoomIdError::InvalidBotUid),
                            Some(bot) => if uid != bot {
                                Err(RoomIdError::Unauthorized)
                            } else {
                                Ok((MessageTarget::User { uid: sender }, bot))
                            },
                        },
                    }
                }
            },
        }
    } else if is_prefix("!group_"@, room_id) {
        match strip_suffix(room_id.skip("!group_"@.len() as int), suffix) {
            None => Err(RoomIdError::InvalidGroupFormat),
            Some(g) => match parse_i64_spec(g) {
                None => Err(RoomIdError::InvalidGid),
                Some(gid) => Ok((MessageTarget::Group { gid }, uid)),
            },
        }
    } else {
        Err(RoomIdError::UnknownFormat)
    }
}

/// The room id of a conversation.
pub fn get_room_id(from_uid: i64, target: &MessageTarget, matrix_domain: &str) -> (r: String)
    ensures
        r@ == room_id_of(from_uid, *target, matrix_domain@),
{
    let mut out;
    match target {
        MessageTarget::User { uid } => {
            out = "!dm_".to_owned();
            let a = format_i64(from_uid);
            push_chars(&mut out, &a, 0, a.len());
            let sep = str_chars("_");
            push_chars(&mut out, &sep, 0, sep.len());
            let b = format_i64(*uid);
            push_chars(&mut out, &b, 0, b.len());
            assert(a@.subrange(0, a@.len() as int) =~= a@);
            assert(b@.subrange(0, b@.len() as int) =~= b@);
            assert(sep@.subrange(0, sep@.len() as int) =~= sep@);
        },
        MessageTarget::Group { gid } => {
            out = "!group_".to_owned();
            let a = format_i64(*gid);
            push_chars(&mut out, &a, 0, a.len());
            assert(a@.subrange(0, a@.len() as int) =~= a@);
        },
    }
    let colon = str_chars(":");
    push_chars(&mut out, &colon, 0, colon.len());
    let d = str_chars(matrix_domain);
    push_chars(&mut out, &d, 0, d.len());
    assert(colon@.subrange(0, colon@.len() as int) =~= colon@);
    assert(d@.subrange(0, d@.len() as int) =~= d@);
    out
}

/// `v[lo..]` without the suffix `suf`, when it ends with it.
pub(crate) fn strip_suffix_chars(v: &Vec<char>, lo: usize, suf: &Vec<char>) -> (r: Option<Vec<char>>)
    requires
        lo <= v.len(),
    ensures
        match r {
            Some(p) => strip_suffix(v@.skip(lo as int), suf@) == Some(p@),
            None => strip_suffix(v@.skip(lo as int), suf@) is None,
        },
{
    let ghost s = v@.skip(lo as int);
    if v.len() - lo < suf.len() {
        return None;
    }
    let start = v.len() - suf.len();
    if !crate::text::occurs_at(v, suf, start) {
        assert(s.skip(s.len() - suf@.len()) =~= v@.subrange(start as int, v.len() as int));
        return None;
    }
    assert(s.skip(s.len() - suf@.len()) =~= v@.subrange(start as int, v.len() as int));
    let p = crate::text::sub_chars(v, lo, start);
    assert(p@ =~= s.take(s.len() - suf@.len()));
    Some(p)
}

/// The characters `v` as a string.
pub(crate) fn chars_text(v: &Vec<char>) -> (s: String)
    ensures
        s@ == v@,
{
    assert(v@.subrange(0, v@.len() as int) =~= v@);
    chars_string(v, 0, v.len())
}

/// Parses a room id into the target and sender it names for the user `uid`.
pub fn parse_room_target(room_id: &str, uid: i64, matrix_domain: &str) -> (r: Result<
    (MessageTarget, i64),
    RoomIdError,
>)
    ensures
        r == room_target(room_id@, uid, matrix_domain@),
{
    let v = str_chars(room_id);
    let mut suffix = ":".to_owned();
    let d = str_chars(matrix_domain);
    push_chars(&mut suffix, &d, 0, d.len());
    assert(d@.subrange(0, d@.len() as int) =~= d@);
    let sv = str_chars(suffix.as_str());
    let dm = str_chars("!dm_");
    let group = str_chars("!group_");
    if has_prefix(&v, &dm) {
        let part = match strip_suffix_chars(&v, dm.len(), &sv) {
            Some(p) => p,
            None => return Err(RoomIdError::InvalidDmFormat),
        };
        let parts = split_chars(&part, '_');
        if parts.len() != 2 {
            return Err(RoomIdError::InvalidDmFormat);
        }
        let sender = match parse_i64(chars_text(&parts[0]).as_str()) {
            Some(x) => x,
            None => return Err(RoomIdError::InvalidSenderUid),
        };
        let bot = match parse_i64(chars_text(&parts[1]).as_str()) {
            Some(x) => x,
            None => return Err(RoomIdError::InvalidBotUid),
        };
        if uid != bot {
            return Err(RoomIdError::Unauthorized);
        }
        Ok((MessageTarget::User { uid: sender }, bot))
    } else if has_prefix(&v, &group) {
        let g = match strip_suffix_chars(&v, group.len(), &sv) {
            Some(p) => p,
            None => return Err(RoomIdError::InvalidGroupFormat),
        };
        match parse_i64(chars_text(&g).as_str()) {
            Some(gid) => Ok((MessageTarget::Group { gid }, uid)),
            None => Err(RoomIdError::InvalidGid),
        }
    } else {
        Err(RoomIdError::UnknownFormat)
    }
}

/// Splitting `a`, a separator and `b`, where `a` holds no separator, gives `a`
/// and then the pieces of `b`.
proof fn lemma_split_concat(a: Seq<char>, b: Seq<char>, sep: char)
    requires
        forall|i: int| 0 <= i < a.len() ==> a[i] != sep,
    ensures
        split_on(a + seq![sep] + b, sep) == seq![a] + split_on(b, sep),
    decreases a.len(),
{
    let s = a + seq![sep] + b;
    if a.len() == 0 {
        assert(a =~= Seq::<char>::empty());
        assert(s.skip(1) =~= b);
        assert(seq![Seq::<char>::empty()] + split_on(b, sep) =~= seq![a] + split_on(b, sep));
    } else {
        let a1 = a.skip(1);
        assert(s.skip(1) =~= a1 + seq![sep] + b);
        lemma_split_concat(a1, b, sep);
        let r = split_on(s.skip(1), sep);
        assert(r == seq![a1] + split_on(b, sep));
        assert(seq![a[0]] + a1 =~= a);
        assert(r.update(0, seq![s[0]] + r[0]) =~= seq![a] + split_on(b, sep));
    }
}

/// A text without the separator is a single piece.
proof fn lemma_split_whole(a: Seq<char>, sep: char)
    requires
        forall|i: int| 0 <= i < a.len() ==> a[i] != sep,
    ensures
        split_on(a, sep) == seq![a],
    decreases a.len(),
{
    if a.len() == 0 {
        assert(a =~= Seq::<char>::empty());
    } else {
        lemma_split_whole(a.skip(1), sep);
        assert(seq![a[0]] + a.skip(1) =~= a);
        assert(seq![a.skip(1)].update(0, seq![a[0]] + a.skip(1)) =~= seq![a]);
    }
}

/// The decimal text of an integer holds no `_`.
proof fn lemma_int_text_no_underscore(n: int)
    ensures
        forall|i: int| 0 <= i < int_text(n).len() ==> int_text(n)[i] != '_',
{
    if n < 0 {
        crate::num::lemma_nat_text((-n) as nat);
        let t = int_text(n);
        assert forall|i: int| 0 <= i < t.len() implies t[i] != '_' by {
            if i > 0 {
                assert(t[i] == crate::num::nat_text((-n) as nat)[i - 1]);
                assert(crate::num::is_digit(crate::num::nat_text((-n) as nat)[i - 1]));
            }
        }
    } else {
        crate::num::lemma_nat_text(n as nat);
        let t = int_text(n);
        assert forall|i: int| 0 <= i < t.len() implies t[i] != '_' by {
            assert(crate::num::is_digit(t[i]));
        }
    }
}

/// The room id of a conversation names it back: the sender and bot of a
/// direct conversation, for the bot; the group, for any user.
pub proof fn lemma_room_id_round_trip(from_uid: i64, target: MessageTarget, uid: i64, domain: Seq<char>)
    requires
        target matches MessageTarget::User { uid: bot } ==> bot == uid,
    ensures
        room_target(room_id_of(from_uid, target, domain), uid, domain) == Ok::<
            (MessageTarget, i64),
            RoomIdError,
        >(
            match target {
                MessageTarget::User { .. } => (MessageTarget::User { uid: from_uid }, uid),
                MessageTarget::Group { gid } => (MessageTarget::Group { gid }, uid),
            },
        ),
{
    reveal_strlit("!dm_");
    reveal_strlit("!group_");
    reveal_strlit("_");
    reveal_strlit(":");
    let suffix = ":"@ + domain;
    match target {
        MessageTarget::User { uid: bot } => {
            let id = room_id_of(from_uid, target, domain);
            let a = int_text(from_uid as int);
            let b = int_text(bot as int);
            let part = a + "_"@ + b;
            assert(is_prefix("!dm_"@, id)) by {
                assert(id.subrange(0, 4) =~= "!dm_"@);
            }
            assert(id.skip(4) =~= part + suffix);
            assert((part + suffix).skip((part + suffix).len() - suffix.len()) =~= suffix);
            assert((part + suffix).take((part + suffix).len() - suffix.len()) =~= part);
            lemma_int_text_no_underscore(from_uid as int);
            lemma_int_text_no_underscore(bot as int);
            assert("_"@ =~= seq!['_']);
            lemma_split_concat(a, b, '_');
            lemma_split_whole(b, '_');
            assert(split_on(part, '_') =~= seq![a, b]);
            crate::num::lemma_i64_round_trip(from_uid);
            crate::num::lemma_i64_round_trip(bot);
        },
        MessageTarget::Group { gid } => {
            let id = room_id_of(from_uid, target, domain);
            let g = int_text(gid as int);
            assert(!is_prefix("!dm_"@, id)) by {
                assert(id[1] == 'g');
                assert("!dm_"@[1] == 'd');
                if is_prefix("!dm_"@, id) {
                    assert(id.subrange(0, 4)[1] == "!dm_"@[1]);
                }
            }
            assert(is_prefix("!group_"@, id)) by {
                assert(id.subrange(0, 7) =~= "!group_"@);
            }
            assert(id.skip(7) =~= g + suffix);
            assert((g + suffix).skip((g + suffix).len() - suffix.len()) =~= suffix);
            assert((g + suffix).take((g + suffix).len() - suffix.len()) =~= g);
            crate::num::lemma_i64_round_trip(gid);
        },
    }
}

// ----- edits -----

/// The message an `m.replace` edit event refers to: its relation has
/// `rel_type` `m.replace` and an `event_id` `$<mid>`.
pub open spec fn replaced_mid(msg: MatrixContent) -> Option<i64> {
    match msg.relates_to {
        None => None,
        Some(rel) => match rel.rel_type {
            Some(t) if t@ == "m.replace"@ => match rel.event_id {
                Some(e) => if e@.len() > 0 && e@[0] == '$' {
                    parse_i64_spec(e@.skip(1))
                } else {
                    None
                },
                None => None,
            },
            _ => None,
        },
    }
}

/// Parses an `m.replace` edit event: the mid of the message it edits, and the
/// replacement content, `m.new_content` or else the whole event.
pub fn matrix_replace(msg: &MatrixContent) -> (r: Option<(i64, &MatrixContent)>)
    ensures
        match r {
            Some((mid, c)) => replaced_mid(*msg) == Some(mid) && *c == (match msg.new_content {
                Some(b) => *b,
                None => *msg,
            }),
            None => replaced_mid(*msg) is None,
        },
{
    let rel = match &msg.relates_to {
        Some(rel) => rel,
        None => return None,
    };
    match &rel.rel_type {
        Some(t) => if !str_equal(t.as_str(), "m.replace") {
            return None;
        },
        None => return None,
    }
    let e = match &rel.event_id {
        Some(e) => e,
        None => return None,
    };
    let v = str_chars(e.as_str());
    if v.len() == 0 || v[0] != '$' {
        return None;
    }
    let rest = chars_text(&crate::text::sub_chars(&v, 1, v.len()));
    assert(v@.subrange(1, v@.len() as int) =~= e@.skip(1));
    let mid = match parse_i64(rest.as_str()) {
        Some(m) => m,
        None => return None,
    };
    match &msg.new_content {
        Some(b) => Some((mid, &**b)),
        None => Some((mid, msg)),
    }
}

// ----- room encryption and read markers -----

/// The one room encryption algorithm the bridge supports.
pub const MEGOLM_ALGORITHM: &'static str = "m.megolm.v1.aes-sha2";

/// Why enabling the encryption of a room was refused.
#[derive(Debug, Clone, Copy, PartialEq, Eq)]
pub enum RoomEncryptionError {
    /// An algorithm other than megolm was asked for.
    UnsupportedAlgorithm,
    /// Only direct rooms (ids starting with `!dm_`) can be encrypted.
    NotDirectRoom,
}

/// The algorithm a room's encryption is enabled with, given the algorithm
/// the request names as a string, if it does: megolm when none is named;
/// any other algorithm is refused, and so is a room that is not direct.
pub fn room_encryption_algorithm(requested: Option<&str>, room_id: &str) -> (r: Result<
    String,
    RoomEncryptionError,
>)
    ensures
        ({
            let alg = match requested {
                Some(a) => a@,
                None => MEGOLM_ALGORITHM@,
            };
            &&& alg != MEGOLM_ALGORITHM@ ==> r == Err::<String, RoomEncryptionError>(
                RoomEncryptionError::UnsupportedAlgorithm,
            )
            &&& alg == MEGOLM_ALGORITHM@ && !is_prefix("!dm_"@, room_id@) ==> r == Err::<
                String,
                RoomEncryptionError,
            >(RoomEncryptionError::NotDirectRoom)
            &&& alg == MEGOLM_ALGORITHM@ && is_prefix("!dm_"@, room_id@) ==> (r matches Ok(a)
                && a@ == MEGOLM_ALGORITHM@)
        }),
{
    let alg = match requested {
        Some(a) => a,
        None => MEGOLM_ALGORITHM,
    };
    if !str_equal(alg, MEGOLM_ALGORITHM) {
        return Err(RoomEncryptionError::UnsupportedAlgorithm);
    }
    let v = str_chars(room_id);
    let p = str_chars("!dm_");
    if !has_prefix(&v, &p) {
        return Err(RoomEncryptionError::NotDirectRoom);
    }
    Ok(MEGOLM_ALGORITHM.to_owned())
}

/// The newest message of each bot, by its id and room, where it has one.
pub open spec fn newest_views(newest: Seq<Option<(i64, String)>>) -> Seq<Option<(i64, Seq<char>)>> {
    newest.map_values(
        |n: Option<(i64, String)>|
            match n {
                Some((mid, room)) => Some((mid, room@)),
                None => None,
            },
    )
}

/// The id of the first of the bots' newest messages that lies in `room`.
pub open spec fn first_in_room(newest: Seq<Option<(i64, Seq<char>)>>, room: Seq<char>) -> Option<i64>
    decreases newest.len(),
{
    if newest.len() == 0 {
        None
    } else {
        match newest[0] {
            Some((mid, r)) => if r == room {
                Some(mid)
            } else {
                first_in_room(newest.skip(1), room)
            },
            None => first_in_room(newest.skip(1), room),
        }
    }
}

/// The read marker of a room: `$<mid>` for the first bot whose newest
/// message lies in the room, `$0` when none does. `newest` holds each bot's
/// newest message by its id and room id, where it has one.
pub fn latest_event_id(newest: &Vec<Option<(i64, String)>>, room_id: &str) -> (r: String)
    ensures
        r@ == (match first_in_room(newest_views(newest@), room_id@) {
            Some(mid) => seq!['$'] + int_text(mid as int),
            None => "$0"@,
        }),
{
    let ghost all = newest_views(newest@);
    let mut i: usize = 0;
    assert(all.skip(0) =~= all);
    while i < newest.len()
        invariant
            i <= newest.len(),
            all == newest_views(newest@),
            first_in_room(all, room_id@) == first_in_room(all.skip(i as int), room_id@),
        decreases newest.len() - i,
    {
        assert(all.skip(i as int)[0] == all[i as int]);
        assert(all.skip(i as int).skip(1) =~= all.skip(i + 1));
        if let Some((mid, room)) = &newest[i] {
            if str_equal(room.as_str(), room_id) {
                let mut out = "$".to_owned();
                let digits = format_i64(*mid);
                push_chars(&mut out, &digits, 0, digits.len());
                proof {
                    reveal_strlit("$");
                    assert(digits@.subrange(0, digits@.len() as int) =~= digits@);
                }
                return out;
            }
        }
        i += 1;
    }
    "$0".to_owned()
}


/// Percent-decoding bytes without a `%` keeps them as they are.
proof fn lemma_percent_decoded_plain(b: Seq<u8>)
    requires
        forall|i: int| 0 <= i < b.len() ==> b[i] != 0x25,
    ensures
        crate::auth::percent_decoded(b) == b,
    decreases b.len(),
{
    if b.len() > 0 {
        lemma_percent_decoded_plain(b.skip(1));
        assert(seq![b[0]] + b.skip(1) =~= b);
    }
}

/// A path segment of ASCII characters without `%` decodes to itself.
pub proof fn lemma_plain_segment_decodes(seg: Seq<char>)
    requires
        forall|i: int| 0 <= i < seg.len() ==> '\0' <= #[trigger] seg[i] <= '\u{7f}' && seg[i] != '%',
    ensures
        decoded_segment(seg) == Some(seg),
{
    let b = vstd::utf8::encode_utf8(seg);
    assert(vstd::utf8::is_ascii_chars(seg));
    vstd::utf8::is_ascii_chars_encode_utf8(seg);
    assert forall|i: int| 0 <= i < b.len() implies b[i] != 0x25 by {
        assert(seg[i] as u8 == b[i]);
        assert(seg[i] != '%');
        assert(seg[i] as int != 37);
    }
    lemma_percent_decoded_plain(b);
    vstd::utf8::encode_utf8_valid_utf8(seg);
    vstd::utf8::encode_utf8_decode_utf8(seg);
}

/// A `send` path routes by its event type, whatever the room and the
/// transaction id: messages, reactions and encrypted events to their
/// endpoints in the room the first segment names, and any other plain type
/// is refused as unsupported, naming it.
pub proof fn lemma_send_routes_by_type(
    room: Seq<char>,
    ty: Seq<char>,
    txn: Seq<char>,
    room_id: Seq<char>,
    is_put: bool,
)
    requires
        forall|i: int| 0 <= i < room.len() ==> room[i] != '/',
        forall|i: int|
            0 <= i < ty.len() ==> '\0' <= #[trigger] ty[i] <= '\u{7f}' && ty[i] != '%' && ty[i] != '/',
        forall|i: int| 0 <= i < txn.len() ==> txn[i] != '/',
        decoded_segment(room) == Some(room_id),
    ensures
        ({
            let r = room_route(rooms_prefix() + room + "/send/"@ + ty + "/"@ + txn, is_put);
            &&& ty == "m.room.message"@ ==> r == Ok::<
                (Seq<char>, RoomEndpoint<Seq<char>>),
                RoomPathError<Seq<char>>,
            >((room_id, RoomEndpoint::SendMessage))
            &&& ty == "m.reaction"@ ==> r == Ok::<
                (Seq<char>, RoomEndpoint<Seq<char>>),
                RoomPathError<Seq<char>>,
            >((room_id, RoomEndpoint::Reaction))
            &&& ty == "m.room.encrypted"@ ==> r == Ok::<
                (Seq<char>, RoomEndpoint<Seq<char>>),
                RoomPathError<Seq<char>>,
            >((room_id, RoomEndpoint::SendEncrypted))
            &&& ty != "m.room.message"@ && ty != "m.reaction"@ && ty != "m.room.encrypted"@ ==> r
                == Err::<(Seq<char>, RoomEndpoint<Seq<char>>), RoomPathError<Seq<char>>>(
                RoomPathError::UnsupportedSendType { send_type: ty },
            )
        }),
{
    reveal_strlit("/send/");
    reveal_strlit("/");
    reveal_strlit("/_matrix/client/v3/rooms/");
    reveal_strlit("send");
    reveal_strlit("members");
    reveal_strlit("joined_members");
    reveal_strlit("read_markers");
    reveal_strlit("state");
    reveal_strlit("typing");
    reveal_strlit("m.room.message");
    reveal_strlit("m.reaction");
    reveal_strlit("m.room.encrypted");
    assert("m.room.message"@.len() == 14 && "m.reaction"@.len() == 10 && "m.room.encrypted"@.len()
        == 16);
    let send = "send"@;
    let path = rooms_prefix() + room + "/send/"@ + ty + "/"@ + txn;
    let rest = path.skip(rooms_prefix().len() as int);
    assert(path.subrange(0, rooms_prefix().len() as int) =~= rooms_prefix());
    assert(is_prefix(rooms_prefix(), path));
    assert(rest =~= room + seq!['/'] + (send + seq!['/'] + (ty + seq!['/'] + txn)));
    lemma_split_whole(txn, '/');
    lemma_split_concat(ty, txn, '/');
    lemma_split_concat(send, ty + seq!['/'] + txn, '/');
    lemma_split_concat(room, send + seq!['/'] + (ty + seq!['/'] + txn), '/');
    let parts = split_on(rest, '/');
    assert(parts =~= seq![room, send, ty, txn]);
    lemma_plain_segment_decodes(send);
    lemma_plain_segment_decodes(ty);
    assert(send != "members"@);
    assert(send != "joined_members"@);
    assert(send != "read_markers"@);
    assert(send != "state"@);
    assert(send != "typing"@);
    assert(endpoint_route(parts, is_put) == send_route(parts));
    assert(parts[0] == room);
    assert(decoded_segment(parts[2]) == Some(ty));
    assert(room_route(path, is_put) == match send_route(parts) {
        Ok(e) => Ok((room_id, e)),
        Err(x) => Err(x),
    });
}

/// A `send` of an encrypted event routes to the encrypted-message endpoint of
/// the room the first segment names, whatever the transaction id, for a `PUT`
/// and for any other method: the encrypted event type is never refused.
pub proof fn lemma_encrypted_send_routes(room: Seq<char>, txn: Seq<char>, room_id: Seq<char>, is_put: bool)
    requires
        forall|i: int| 0 <= i < room.len() ==> room[i] != '/',
        forall|i: int| 0 <= i < txn.len() ==> txn[i] != '/',
        decoded_segment(room) == Some(room_id),
    ensures
        room_route(rooms_prefix() + room + "/send/m.room.encrypted/"@ + txn, is_put) == Ok::<
            (Seq<char>, RoomEndpoint<Seq<char>>),
            RoomPathError<Seq<char>>,
        >((room_id, RoomEndpoint::SendEncrypted)),
{
    reveal_strlit("/send/m.room.encrypted/");
    reveal_strlit("/send/");
    reveal_strlit("/");
    reveal_strlit("m.room.encrypted");
    let enc = "m.room.encrypted"@;
    assert("/send/m.room.encrypted/"@ =~= "/send/"@ + enc + "/"@);
    assert(rooms_prefix() + room + "/send/m.room.encrypted/"@ + txn =~= rooms_prefix() + room
        + "/send/"@ + enc + "/"@ + txn);
    lemma_send_routes_by_type(room, enc, txn, room_id, is_put);
}

} // verus!
