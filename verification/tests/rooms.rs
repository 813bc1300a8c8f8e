use vachat::agent_convert::{MatrixContent, Relation};
use vachat::rooms::{
    get_room_id, matrix_replace, parse_room_target, route_room_request, MessageTarget,
    RoomEndpoint, RoomIdError, RoomPathError,
};
use vachat::rooms::{latest_event_id, room_encryption_algorithm, RoomEncryptionError};

fn text(body: &str) -> MatrixContent {
    MatrixContent {
        msgtype: Some("m.text".to_string()),
        body: Some(body.to_string()),
        ..Default::default()
    }
}

fn replace_event(orig_mid: i64) -> MatrixContent {
    MatrixContent {
        msgtype: Some("m.text".to_string()),
        body: Some("* 🔍 Searching the web for weather\n📄 Reading https://example.com".to_string()),
        new_content: Some(Box::new(text(
            "🔍 Searching the web for weather\n📄 Reading https://example.com",
        ))),
        relates_to: Some(Relation {
            event_id: Some(format!("${}", orig_mid)),
            rel_type: Some("m.replace".to_string()),
        }),
        ..Default::default()
    }
}

#[test]
fn matrix_replace_parses_event_id_and_new_content() {
    let event = replace_event(610);
    let (mid, new_content) = matrix_replace(&event).expect("replace");
    assert_eq!(mid, 610);
    assert_eq!(
        new_content.body.as_deref().unwrap(),
        "🔍 Searching the web for weather\n📄 Reading https://example.com"
    );
    assert!(new_content.new_content.is_none());
}

#[test]
fn matrix_replace_without_new_content_falls_back_to_event() {
    let mut event = replace_event(610);
    event.new_content = None;
    let (mid, new_content) = matrix_replace(&event).expect("replace");
    assert_eq!(mid, 610);
    assert!(new_content.body.as_deref().unwrap().starts_with("* "));
}

#[test]
fn matrix_replace_ignores_other_relations() {
    // An m.in_reply_to relation carries neither rel_type nor a top-level event_id.
    let mut reply = text("the answer");
    reply.relates_to = Some(Relation { rel_type: None, event_id: None });
    assert!(matrix_replace(&reply).is_none());

    assert!(matrix_replace(&text("hi")).is_none());

    let mut foreign = text("* edited");
    foreign.relates_to = Some(Relation {
        event_id: Some("$mautrix-python_123".to_string()),
        rel_type: Some("m.replace".to_string()),
    });
    assert!(matrix_replace(&foreign).is_none());
}

#[test]
fn matrix_replace_needs_replace_relation() {
    let mut event = replace_event(7);
    event.relates_to = Some(Relation {
        event_id: Some("$7".to_string()),
        rel_type: Some("m.annotation".to_string()),
    });
    assert!(matrix_replace(&event).is_none());
    event.relates_to = Some(Relation {
        event_id: Some("7".to_string()),
        rel_type: Some("m.replace".to_string()),
    });
    assert!(matrix_replace(&event).is_none());
}

#[test]
fn room_id_of_direct_and_group() {
    assert_eq!(
        get_room_id(3, &MessageTarget::User { uid: 12 }, "localhost"),
        "!dm_3_12:localhost"
    );
    assert_eq!(
        get_room_id(3, &MessageTarget::Group { gid: -5 }, "chat.example"),
        "!group_-5:chat.example"
    );
}

#[test]
fn room_id_round_trip() {
    let id = get_room_id(42, &MessageTarget::User { uid: 7 }, "localhost");
    assert_eq!(
        parse_room_target(&id, 7, "localhost"),
        Ok((MessageTarget::User { uid: 42 }, 7))
    );
    let id = get_room_id(9, &MessageTarget::Group { gid: 100 }, "localhost");
    assert_eq!(
        parse_room_target(&id, 9, "localhost"),
        Ok((MessageTarget::Group { gid: 100 }, 9))
    );
}

#[test]
fn room_id_errors() {
    assert_eq!(
        parse_room_target("!dm_1_2:localhost", 3, "localhost"),
        Err(RoomIdError::Unauthorized)
    );
    assert_eq!(
        parse_room_target("!dm_1_2:other", 2, "localhost"),
        Err(RoomIdError::InvalidDmFormat)
    );
    assert_eq!(
        parse_room_target("!dm_1:localhost", 2, "localhost"),
        Err(RoomIdError::InvalidDmFormat)
    );
    assert_eq!(
        parse_room_target("!dm_x_2:localhost", 2, "localhost"),
        Err(RoomIdError::InvalidSenderUid)
    );
    assert_eq!(
        parse_room_target("!dm_1_y:localhost", 2, "localhost"),
        Err(RoomIdError::InvalidBotUid)
    );
    assert_eq!(
        parse_room_target("!group_5:other", 2, "localhost"),
        Err(RoomIdError::InvalidGroupFormat)
    );
    assert_eq!(
        parse_room_target("!group_abc:localhost", 2, "localhost"),
        Err(RoomIdError::InvalidGid)
    );
    assert_eq!(
        parse_room_target("#room:localhost", 2, "localhost"),
        Err(RoomIdError::UnknownFormat)
    );
}

#[test]
fn route_room_paths() {
    let p = "/_matrix/client/v3/rooms/";
    assert_eq!(
        route_room_request(&format!("{}%21dm_1_2%3Alocalhost/members", p), false),
        Ok(("!dm_1_2:localhost".to_string(), RoomEndpoint::Members))
    );
    assert_eq!(
        route_room_request(&format!("{}r/joined_members", p), false),
        Ok(("r".to_string(), RoomEndpoint::JoinedMembers))
    );
    assert_eq!(
        route_room_request(&format!("{}r/send/m.room.message/txn1", p), true),
        Ok(("r".to_string(), RoomEndpoint::SendMessage))
    );
    assert_eq!(
        route_room_request(&format!("{}r/send/m.reaction/txn1", p), true),
        Ok(("r".to_string(), RoomEndpoint::Reaction))
    );
    assert_eq!(
        route_room_request(&format!("{}r/state/m.room.encryption/", p), true),
        Ok(("r".to_string(), RoomEndpoint::SetEncryption))
    );
    assert_eq!(
        route_room_request(&format!("{}r/state/m.room.encryption/", p), false),
        Ok(("r".to_string(), RoomEndpoint::EncryptionState))
    );
    assert_eq!(
        route_room_request(&format!("{}r/state/m.room.member/%40u%3Ax", p), false),
        Ok(("r".to_string(), RoomEndpoint::MemberState { user_id: "@u:x".to_string() }))
    );
    assert_eq!(
        route_room_request(&format!("{}r/receipt/m.read/%24ev", p), true),
        Ok(("r".to_string(), RoomEndpoint::Receipt { event_id: "$ev".to_string() }))
    );
    assert_eq!(
        route_room_request(&format!("{}r/typing/%40u%3Ax", p), true),
        Ok(("r".to_string(), RoomEndpoint::Typing))
    );
}

#[test]
fn route_room_path_errors() {
    let p = "/_matrix/client/v3/rooms/";
    assert_eq!(route_room_request("/other/path", false), Err(RoomPathError::InvalidPath));
    assert_eq!(
        route_room_request(&format!("{}r", p), false),
        Err(RoomPathError::InvalidPathFormat)
    );
    assert_eq!(
        route_room_request(&format!("{}r/state", p), false),
        Err(RoomPathError::MissingStateEventType)
    );
    assert_eq!(
        route_room_request(&format!("{}r/state/m.room.member", p), false),
        Err(RoomPathError::MissingMemberUserId)
    );
    assert_eq!(
        route_room_request(&format!("{}r/state/m.room.name", p), false),
        Err(RoomPathError::UnknownStateEventType)
    );
    assert_eq!(
        route_room_request(&format!("{}r/send", p), true),
        Err(RoomPathError::MissingSendType)
    );
    assert_eq!(
        route_room_request(&format!("{}r/send/m.sticker/t", p), true),
        Err(RoomPathError::UnsupportedSendType { send_type: "m.sticker".to_string() })
    );
    assert_eq!(
        route_room_request(&format!("{}r/receipt/m.read.private/e", p), true),
        Err(RoomPathError::UnsupportedReceiptType { receipt_type: "m.read.private".to_string() })
    );
    assert_eq!(
        route_room_request(&format!("{}r/receipt/m.read", p), true),
        Err(RoomPathError::InvalidReceiptPath)
    );
    assert_eq!(
        route_room_request(&format!("{}%FF/members", p), false),
        Err(RoomPathError::InvalidEncoding)
    );
    assert_eq!(
        route_room_request(&format!("{}r/unknown", p), false),
        Err(RoomPathError::InvalidPathFormat)
    );
}

#[test]
fn room_encryption_is_megolm_in_direct_rooms_only() {
    assert_eq!(room_encryption_algorithm(None, "!dm_1_2:example.com"), Ok("m.megolm.v1.aes-sha2".to_string()));
    assert_eq!(
        room_encryption_algorithm(Some("m.megolm.v1.aes-sha2"), "!dm_1_2:example.com"),
        Ok("m.megolm.v1.aes-sha2".to_string())
    );
    assert_eq!(
        room_encryption_algorithm(Some("m.olm.v1"), "!dm_1_2:example.com"),
        Err(RoomEncryptionError::UnsupportedAlgorithm)
    );
    assert_eq!(
        room_encryption_algorithm(None, "!group_3:example.com"),
        Err(RoomEncryptionError::NotDirectRoom)
    );
}

#[test]
fn read_marker_is_the_first_bot_message_in_the_room() {
    let newest = vec![
        None,
        Some((12, "!group_1:example.com".to_string())),
        Some((40, "!dm_1_2:example.com".to_string())),
        Some((41, "!dm_1_2:example.com".to_string())),
    ];
    assert_eq!(latest_event_id(&newest, "!dm_1_2:example.com"), "$40");
    assert_eq!(latest_event_id(&newest, "!group_1:example.com"), "$12");
    assert_eq!(latest_event_id(&newest, "!other:example.com"), "$0");
    assert_eq!(latest_event_id(&Vec::new(), "!x"), "$0");
}
