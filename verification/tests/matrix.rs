use std::collections::{BTreeMap, HashMap, HashSet};

use vachat::matrix_account::{
    claim_one_time_key, devices_path_id, devices_request, direct_room, identity_keys,
    route_user_request, select_device_keys, username_of, ClaimedKey, DevicesAction, DevicesError,
    DevicesMethod, MissingIdentityKey, UserEndpoint, UserRouteError,
};
use vachat::auth::MatrixIdError;
use vachat::rooms::MessageTarget;
use vachat::state::{BotKey, Cache, CacheGroup, CacheUser, GroupType, UserStatus};
use vachat::sync::{
    newest_mid, poll_step, room_timelines, select_bot_messages, since_mid, sleep_ms, sync_deadline,
    BotCache, MessageEvent, PollStep, StoredMessage, SyncedContent, SyncedDetail,
};

fn user(name: &str) -> CacheUser {
    CacheUser {
        email: None,
        name: name.to_string(),
        password: None,
        gender: 0,
        is_admin: false,
        language: "en-US".to_string(),
        create_by: "password".to_string(),
        devices: Vec::new(),
        mute_user: HashMap::new(),
        mute_group: HashMap::new(),
        burn_after_reading_user: HashMap::new(),
        burn_after_reading_group: HashMap::new(),
        read_index_user: HashMap::new(),
        read_index_group: HashMap::new(),
        pinned_chat_user: HashSet::new(),
        pinned_chat_group: HashSet::new(),
        contacts: HashMap::new(),
        created_at: 0,
        updated_at: 0,
        avatar_updated_at: 0,
        status: UserStatus::Normal,
        is_guest: false,
        webhook_url: None,
        is_bot: false,
        bot_keys: HashMap::new(),
        bot_online: false,
    }
}

fn cache() -> Cache {
    let mut users = BTreeMap::new();
    users.insert(1, user("alice"));
    let mut b = user("helper");
    b.is_bot = true;
    b.bot_keys.insert(
        7,
        BotKey { name: "laptop".to_string(), key: "tok-1".to_string(), created_at: 0, last_used: None },
    );
    users.insert(5, b);
    users.insert(9, user("alice"));
    let mut groups = BTreeMap::new();
    groups.insert(
        20,
        CacheGroup {
            ty: GroupType::Private { owner: 1 },
            name: "g".to_string(),
            description: String::new(),
            members: [1, 5].into_iter().collect(),
            created_at: 0,
            updated_at: 0,
            avatar_updated_at: 0,
            pinned_messages: Vec::new(),
            announcement: None,
        },
    );
    Cache { groups, users }
}

// ----- devices and tokens -----

#[test]
fn token_device_names_the_bot_key() {
    let c = cache();
    let b = &c.users[&5];
    assert_eq!(b.token_device("tok-1"), "laptop");
    assert_eq!(b.token_device("other"), "BOTDEVICE");
    assert_eq!(b.any_bot_key_name().as_deref(), Some("laptop"));
    assert!(c.users[&1].any_bot_key_name().is_none());
}

#[test]
fn devices_paths_and_requests() {
    assert_eq!(devices_path_id("/_matrix/client/v3/devices/BOTDEVICE/"), "BOTDEVICE");
    assert_eq!(devices_path_id("/_matrix/client/v3/devices//x"), "x");
    assert_eq!(devices_path_id("/_matrix/client/v3/devices"), "");
    assert_eq!(devices_path_id("/other"), "");
    assert_eq!(
        devices_request(DevicesMethod::Delete, "/_matrix/client/v3/devices/SERVERDEVICE", "b"),
        Ok(DevicesAction::Delete { device_id: "SERVERDEVICE".to_string(), server_account: true })
    );
    assert_eq!(
        devices_request(DevicesMethod::Delete, "/_matrix/client/v3/devices/X1", "b"),
        Ok(DevicesAction::Delete { device_id: "X1".to_string(), server_account: false })
    );
    assert_eq!(
        devices_request(DevicesMethod::Delete, "/_matrix/client/v3/devices", "b"),
        Err(DevicesError::MissingDeviceId)
    );
    assert_eq!(
        devices_request(DevicesMethod::Get, "/_matrix/client/v3/devices", "laptop"),
        Ok(DevicesAction::List { bot_device: "laptop".to_string() })
    );
    assert_eq!(
        devices_request(DevicesMethod::Get, "/_matrix/client/v3/devices/X1", "laptop"),
        Ok(DevicesAction::Describe { device_id: "X1".to_string() })
    );
    assert_eq!(
        devices_request(DevicesMethod::Other, "/_matrix/client/v3/devices/X1", "laptop"),
        Err(DevicesError::MethodNotAllowed)
    );
}

#[test]
fn user_endpoint_routing() {
    let p = "/_matrix/client/v3/user/";
    assert_eq!(
        route_user_request(&format!("{}%40helper%3Alocalhost/filter", p), "helper", "localhost"),
        Ok(UserEndpoint::Filter)
    );
    assert_eq!(
        route_user_request(&format!("{}@helper:localhost/account_data/m.direct", p), "helper", "localhost"),
        Ok(UserEndpoint::DirectAccountData)
    );
    assert_eq!(
        route_user_request(
            &format!("{}@helper:localhost/account_data/m.secret_storage.default_key", p),
            "helper",
            "localhost"
        ),
        Ok(UserEndpoint::SecretStorageDefaultKey)
    );
    assert_eq!(
        route_user_request(&format!("{}@helper:localhost/other", p), "helper", "localhost"),
        Ok(UserEndpoint::Unknown)
    );
    assert_eq!(route_user_request("/x", "helper", "localhost"), Err(UserRouteError::InvalidPath));
    assert_eq!(
        route_user_request(&format!("{}@helper:localhost", p), "helper", "localhost"),
        Err(UserRouteError::InvalidPathFormat)
    );
    assert_eq!(
        route_user_request(&format!("{}%FF/filter", p), "helper", "localhost"),
        Err(UserRouteError::InvalidEncoding)
    );
    assert_eq!(
        route_user_request(&format!("{}@helper/filter", p), "helper", "localhost"),
        Err(UserRouteError::InvalidUserId(MatrixIdError::InvalidFormat))
    );
    assert_eq!(
        route_user_request(&format!("{}@helper:other/filter", p), "helper", "localhost"),
        Err(UserRouteError::InvalidUserId(MatrixIdError::DomainMismatch {
            domain: "other".to_string(),
            expected: "localhost".to_string()
        }))
    );
    assert_eq!(
        route_user_request(&format!("{}@:localhost/filter", p), "helper", "localhost"),
        Err(UserRouteError::InvalidUserId(MatrixIdError::EmptyUsername))
    );
    assert_eq!(
        route_user_request(&format!("{}@alice:localhost/filter", p), "helper", "localhost"),
        Err(UserRouteError::Forbidden)
    );
}

#[test]
fn direct_room_is_the_last_direct_conversation() {
    let rooms = vec![
        "!dm_1_5:localhost".to_string(),
        "!group_20:localhost".to_string(),
        "!dm_5_9:localhost".to_string(),
        "!group_21:localhost".to_string(),
    ];
    assert_eq!(direct_room(&rooms).as_deref(), Some("!dm_5_9:localhost"));
    assert!(direct_room(&vec!["!group_1:x".to_string()]).is_none());
}

// ----- keys -----

#[test]
fn key_endpoint_decisions() {
    assert_eq!(username_of("@helper:localhost"), "helper");
    assert_eq!(username_of("helper"), "helper");
    assert_eq!(username_of("@a:b:c"), "a");
    let c = cache();
    assert_eq!(c.find_user_named("alice"), Some(1));
    assert_eq!(c.find_user_named("Alice"), None);

    let keys = vec![
        ("curve25519:DEV".to_string(), "ck".to_string()),
        ("ed25519:DEV".to_string(), "ek".to_string()),
    ];
    assert_eq!(identity_keys(&keys, "DEV"), Ok(("ck".to_string(), "ek".to_string())));
    assert_eq!(identity_keys(&keys, "OTHER"), Err(MissingIdentityKey));
    let empty = vec![
        ("curve25519:DEV".to_string(), "".to_string()),
        ("ed25519:DEV".to_string(), "ek".to_string()),
    ];
    assert_eq!(identity_keys(&empty, "DEV"), Err(MissingIdentityKey));

    let stored = vec![("A".to_string(), "{}".to_string()), ("B".to_string(), "{1}".to_string())];
    assert_eq!(select_device_keys(&vec![], stored.clone()).len(), 2);
    let only_b = select_device_keys(&vec!["B".to_string(), "C".to_string()], stored);
    assert_eq!(only_b, vec![("B".to_string(), "{1}".to_string())]);

    let k = ClaimedKey { key_id: "signed_curve25519:AAA".to_string(), key: "x".to_string(), signatures: None };
    assert_eq!(claim_one_time_key("signed_curve25519", Some(k.clone())), Some(k.clone()));
    assert_eq!(claim_one_time_key("curve25519", Some(k)), None);
    assert_eq!(claim_one_time_key("signed_curve25519", None), None);
}

// ----- sync -----

fn text_message(mid: i64, from_uid: i64, target: MessageTarget, created_at: i64, body: &str) -> StoredMessage {
    StoredMessage {
        mid,
        from_uid,
        target,
        created_at,
        detail: SyncedDetail::Normal(SyncedContent {
            content_type: "text/plain".to_string(),
            content: body.to_string(),
            mentions: Vec::new(),
            file_content_type: None,
            file_name: None,
            file_size: None,
        }),
    }
}

#[test]
fn bot_messages_are_selected_once_in_order() {
    let c = cache();
    let now = 1_000_000;
    let msgs = vec![
        text_message(12, 1, MessageTarget::User { uid: 5 }, now - 1000, "hi"),
        text_message(11, 1, MessageTarget::Group { gid: 20 }, now - 1000, "all"),
        text_message(12, 9, MessageTarget::User { uid: 5 }, now - 1000, "dup"),
        text_message(13, 5, MessageTarget::User { uid: 1 }, now - 1000, "from bot"),
        text_message(14, 1, MessageTarget::User { uid: 5 }, now - 400_000, "old"),
        StoredMessage { mid: 15, from_uid: 1, target: MessageTarget::User { uid: 5 }, created_at: now, detail: SyncedDetail::Other },
    ];
    let events = select_bot_messages(&msgs, &vec![5], &c, now, 300, "localhost");
    let mids: Vec<i64> = events.iter().map(|e| e.mid).collect();
    assert_eq!(mids, vec![11, 12]);
    assert_eq!(events[0].room_id, "!group_20:localhost");
    assert_eq!(events[1].room_id, "!dm_1_5:localhost");
    assert_eq!(events[1].sender, "@alice:localhost");
    assert_eq!(events[1].content.body, "hi");
    assert_eq!(events[1].content.msgtype, "m.text");
    assert_eq!(events[1].timestamp, now - 1000);
}

#[test]
fn waiting_for_messages() {
    assert_eq!(sync_deadline(1000, None), 4000);
    assert_eq!(sync_deadline(1000, Some(50)), 1050);
    assert_eq!(poll_step(5000, 5000, 9, 1), PollStep::Expired);
    assert_eq!(poll_step(1000, 5000, 1, 1), PollStep::Wait { ms: 3000 });
    assert_eq!(poll_step(4000, 5000, 1, 1), PollStep::Wait { ms: 1000 });
    assert_eq!(poll_step(1000, 5000, 2, 1), PollStep::Fetch);
    assert_eq!(sleep_ms(6000, 5000), 0);
    assert_eq!(newest_mid(&vec![Some(4), None, Some(9), Some(2)]), 9);
    assert_eq!(newest_mid(&vec![None, Some(-3)]), 0);
    assert_eq!(since_mid(Some("s10"), 20), 10);
    assert_eq!(since_mid(Some("s30"), 20), 20);
    assert_eq!(since_mid(Some("x10"), 20), 20);
    assert_eq!(since_mid(None, 20), 20);
}

#[test]
fn bot_cache_fill_and_rooms() {
    let c = cache();
    let rooms = c.bot_rooms("localhost");
    let mut bc = BotCache::new();
    bc.fill(rooms, 42, 777);
    assert_eq!(bc.bot_uids, vec![5]);
    assert_eq!(bc.max_mid, 42);
    assert_eq!(bc.last_refreshed, 777);
    assert_eq!(bc.rooms_of(5), vec!["!group_20:localhost".to_string()]);
    assert!(bc.rooms_of(1).is_empty());
    bc.note_synced(40);
    assert_eq!(bc.max_mid, 42);
    bc.note_synced(50);
    assert_eq!(bc.max_mid, 50);
    bc.invalidate();
    assert!(bc.bot_uids.is_empty());
    assert_eq!(bc.last_refreshed, 0);
    assert_eq!(bc.max_mid, 50);
}

#[test]
fn timelines_group_events_by_room() {
    let c = cache();
    let now = 1_000_000;
    let msgs = vec![
        text_message(1, 1, MessageTarget::User { uid: 5 }, now, "a"),
        text_message(2, 1, MessageTarget::Group { gid: 20 }, now, "b"),
        text_message(3, 1, MessageTarget::User { uid: 5 }, now, "c"),
    ];
    let events: Vec<MessageEvent> = select_bot_messages(&msgs, &vec![5], &c, now, 300, "localhost");
    let t = room_timelines(&events);
    assert_eq!(t.len(), 2);
    assert_eq!(t[0].0, "!dm_1_5:localhost");
    assert_eq!(t[0].1, vec![0, 2]);
    assert_eq!(t[1].0, "!group_20:localhost");
    assert_eq!(t[1].1, vec![1]);
}
