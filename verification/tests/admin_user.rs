use std::collections::{BTreeMap, HashMap, HashSet};

use vachat::admin_system::ApiAdminSystem;
use vachat::admin_user::{update_user_sql, ApiAdminUser, UpdateUserRequest, UserAdminError};
use vachat::create_user::{CreateUser, CreateUserBy, CreateUserError};
use vachat::password::hash_password;
use vachat::token::ApiToken;
use vachat::server::BotPresence;
use vachat::state::{Cache, CacheDevice, CacheUser, UserStatus};
use vachat::sync::{build_sync_response, link_captions, MessageEvent, RoomEventContent};

fn user(name: &str) -> CacheUser {
    CacheUser {
        email: Some(format!("{}@zimu.pub", name)),
        name: name.to_string(),
        password: None,
        gender: 0,
        is_admin: false,
        language: "en-US".to_string(),
        create_by: "password".to_string(),
        devices: Vec::new(),
        mute_user: HashMap::new(),
        mute_group: HashMap::new(),
        burn_after_reading_user: HashMap::new(),
        burn_after_reading_group: HashMap::new(),
        read_index_user: HashMap::new(),
        read_index_group: HashMap::new(),
        pinned_chat_user: HashSet::new(),
        pinned_chat_group: HashSet::new(),
        contacts: HashMap::new(),
        created_at: 0,
        updated_at: 0,
        avatar_updated_at: 0,
        status: UserStatus::Normal,
        is_guest: false,
        webhook_url: None,
        is_bot: false,
        bot_keys: HashMap::new(),
        bot_online: false,
    }
}

fn cache_with(users: Vec<(i64, CacheUser)>) -> Cache {
    Cache { groups: BTreeMap::new(), users: users.into_iter().collect() }
}

// ----- updates -----

#[test]
fn updates_are_authorized_by_role() {
    let empty = UpdateUserRequest::default();
    assert_eq!(ApiAdminUser::authorize_update(&empty, 1, true, 2), Err(UserAdminError::BadRequest));
    let rename = UpdateUserRequest { name: Some("x".to_string()), ..Default::default() };
    assert_eq!(ApiAdminUser::authorize_update(&rename, 2, false, 2), Ok(()));
    assert_eq!(ApiAdminUser::authorize_update(&rename, 3, false, 2), Err(UserAdminError::Forbidden));
    assert_eq!(ApiAdminUser::authorize_update(&rename, 3, true, 2), Ok(()));
    let promote = UpdateUserRequest { is_admin: Some(true), ..Default::default() };
    assert_eq!(ApiAdminUser::authorize_update(&promote, 2, false, 2), Err(UserAdminError::Forbidden));
    assert_eq!(ApiAdminUser::authorize_update(&promote, 2, true, 2), Ok(()));
}

#[test]
fn deletion_spares_oneself_and_the_founder() {
    assert_eq!(ApiAdminUser::authorize_delete(2, true, 3), Ok(()));
    assert_eq!(ApiAdminUser::authorize_delete(2, false, 3), Err(UserAdminError::Forbidden));
    assert_eq!(ApiAdminUser::authorize_delete(2, true, 2), Err(UserAdminError::Forbidden));
    assert_eq!(ApiAdminUser::authorize_delete(2, true, 1), Err(UserAdminError::Forbidden));
}

#[test]
fn update_conflicts_with_other_users() {
    let cache = cache_with(vec![(1, user("alice")), (2, user("bob"))]);
    let req = UpdateUserRequest { name: Some("ALICE".to_string()), ..Default::default() };
    assert_eq!(cache.check_update_conflicts(2, &req), Err(UserAdminError::NameConflict));
    assert_eq!(cache.check_update_conflicts(1, &req), Ok(()));
    let req = UpdateUserRequest { email: Some("bob@zimu.pub".to_string()), ..Default::default() };
    assert_eq!(cache.check_update_conflicts(1, &req), Err(UserAdminError::EmailConflict));
    assert_eq!(cache.check_update_conflicts(2, &req), Ok(()));
    assert_eq!(cache.check_update_conflicts(3, &req), Err(UserAdminError::NotFound));
}

#[test]
fn update_statement_lists_the_changed_columns() {
    let req = UpdateUserRequest {
        password: Some("p".to_string()),
        name: Some("n".to_string()),
        status: Some(UserStatus::Frozen),
        ..Default::default()
    };
    assert_eq!(update_user_sql(&req), "update user set password = ?, name = ?, status = ?, updated_at = ? where uid = ?");
    let req = UpdateUserRequest { webhook_url: Some("w".to_string()), ..Default::default() };
    assert_eq!(update_user_sql(&req), "update user set webhook_url = ?, updated_at = ? where uid = ?");
}

#[test]
fn applied_updates_change_the_given_fields_and_freezing_closes_streams() {
    let mut u = user("alice");
    u.devices.push(("web".to_string(), CacheDevice { device_token: Some("t".to_string()), connected: true }));
    let req = UpdateUserRequest {
        password: Some("secret".to_string()),
        gender: Some(1),
        status: Some(UserStatus::Frozen),
        ..Default::default()
    };
    u.apply_update(&req, Some("hash".to_string()));
    assert_eq!(u.password, Some("hash".to_string()));
    assert_eq!(u.gender, 1);
    assert_eq!(u.status, UserStatus::Frozen);
    assert_eq!(u.name, "alice");
    assert_eq!(u.devices.len(), 1);
    assert!(!u.devices[0].1.connected);
    assert_eq!(u.devices[0].1.device_token, Some("t".to_string()));
}

// ----- mutes and burn after reading -----

#[test]
fn mutes_apply_until_their_expiry() {
    let mut u = user("alice");
    u.mute_user.insert(2, None);
    u.mute_user.insert(3, Some(100));
    u.mute_group.insert(7, Some(50));
    u.burn_after_reading_user.insert(2, 30);
    u.burn_after_reading_group.insert(7, 60);
    assert!(u.is_user_muted(2, 1000));
    assert!(u.is_user_muted(3, 101));
    assert!(!u.is_user_muted(3, 100));
    assert!(!u.is_user_muted(4, 0));
    assert!(u.is_group_muted(7, 51));
    assert!(!u.is_group_muted(7, 10));
    assert_eq!(u.burn_after_reading_to_user_expires_in(2), Some(30));
    assert_eq!(u.burn_after_reading_to_user_expires_in(3), None);
    assert_eq!(u.burn_after_reading_to_group_expires_in(7), Some(60));
    assert_eq!(u.burn_after_reading_to_group_expires_in(8), None);
}

// ----- bot presence -----

#[test]
fn bots_go_offline_a_minute_after_their_last_sync() {
    let mut b = user("helper");
    b.is_bot = true;
    let mut cache = cache_with(vec![(1, user("alice")), (5, b)]);
    let mut presence = BotPresence::new();
    assert!(presence.bot_online(&mut cache, 5, 1000));
    assert!(!presence.bot_online(&mut cache, 1, 1000));
    assert!(cache.users[&5].bot_online);
    assert!(!cache.users[&1].bot_online);
    assert!(presence.expire(&mut cache, 60_999).is_empty());
    let mut due = presence.expire(&mut cache, 61_000);
    due.sort();
    assert_eq!(due, vec![1, 5]);
    assert!(!cache.users[&5].bot_online);
    assert!(presence.timers.is_empty());
    assert!(presence.bot_online(&mut cache, 5, 2000));
    assert!(presence.bot_offline(&mut cache, 5));
    assert!(!cache.users[&5].bot_online);
    assert!(presence.timers.is_empty());
}

// ----- setup -----

#[test]
fn server_is_initialized_once_a_user_exists() {
    assert!(!ApiAdminSystem::initialized(&cache_with(Vec::new())));
    assert!(ApiAdminSystem::initialized(&cache_with(vec![(1, user("root"))])));
    let cu = CreateUser::new("bot", CreateUserBy::Guest, false).set_admin(true).set_bot(true);
    assert!(cu.is_admin);
    assert!(cu.is_bot);
}

// ----- captions -----

fn event(mid: i64, room: &str, sender: &str, url: Option<&str>, timestamp: i64) -> MessageEvent {
    MessageEvent {
        mid,
        from_uid: 1,
        room_id: room.to_string(),
        sender: sender.to_string(),
        content: RoomEventContent {
            msgtype: if url.is_some() { "m.file" } else { "m.text" }.to_string(),
            body: "x".to_string(),
            format: None,
            formatted_body: None,
            mentions: None,
            url: url.map(|u| u.to_string()),
            mimetype: None,
            size: None,
        },
        timestamp,
    }
}

#[test]
fn texts_right_after_a_file_caption_it() {
    let events = vec![
        event(1, "!r", "@a:x", Some("mxc://x/1"), 1000),
        event(2, "!r", "@b:x", None, 2000),
        event(3, "!r", "@a:x", None, 30_000),
        event(4, "!s", "@a:x", None, 30_000),
        event(5, "!r", "@a:x", None, 61_000),
    ];
    assert_eq!(link_captions(&events), vec![None, None, Some(1), None, None]);
}

#[test]
fn sync_response_numbers_events_and_links_captions() {
    let events = vec![
        event(1, "!r", "@a:d", Some("mxc://d/x"), 0),
        event(2, "!r", "@b:d", None, 1000),
        event(3, "!r", "@a:d", None, 2000),
    ];
    let r = build_sync_response(&events, 3, Vec::new(), 0);
    assert_eq!(r.next_batch, "s3");
    assert_eq!(r.rooms.len(), 1);
    assert_eq!(r.rooms[0].room_id, "!r");
    let ev = &r.rooms[0].events;
    assert_eq!(ev.len(), 3);
    assert_eq!(ev[0].event_id, "$1");
    assert_eq!(ev[1].event_id, "$2");
    assert_eq!(ev[2].event_id, "$3");
    assert_eq!(ev[0].content.url, Some("mxc://d/x".to_string()));
    assert_eq!(ev[0].relates_to, None);
    assert_eq!(ev[1].relates_to, None);
    assert_eq!(ev[2].relates_to, Some("$1".to_string()));
    assert_eq!(ev[2].sender, "@a:d");
    assert_eq!(ev[2].origin_server_ts, 2000);
    assert!(r.changed_users.is_empty());
    assert_eq!(r.one_time_key_count, 0);
}

#[test]
fn sync_response_groups_rooms_and_keeps_counts() {
    let events = vec![
        event(7, "!a", "@a:d", None, 0),
        event(8, "!b", "@a:d", Some("mxc://d/y"), 10),
        event(9, "!a", "@a:d", None, 20),
        event(10, "!b", "@a:d", None, 100_000),
    ];
    let r = build_sync_response(&events, -4, vec!["@u:d".to_string()], 12);
    assert_eq!(r.next_batch, "s-4");
    assert_eq!(r.rooms.len(), 2);
    assert_eq!(r.rooms[0].room_id, "!a");
    let ids: Vec<&str> = r.rooms[0].events.iter().map(|e| e.event_id.as_str()).collect();
    assert_eq!(ids, vec!["$7", "$9"]);
    assert_eq!(r.rooms[1].room_id, "!b");
    let ids: Vec<&str> = r.rooms[1].events.iter().map(|e| e.event_id.as_str()).collect();
    assert_eq!(ids, vec!["$8", "$10"]);
    assert_eq!(r.rooms[1].events[1].relates_to, None);
    assert_eq!(r.changed_users, vec!["@u:d".to_string()]);
    assert_eq!(r.one_time_key_count, 12);
    assert!(build_sync_response(&Vec::new(), 0, Vec::new(), 0).rooms.is_empty());
}

// ----- the administration scenarios -----

const KEY: &str = "server-key";

fn admin() -> CacheUser {
    let mut a = user("admin");
    a.is_admin = true;
    a.password = Some(hash_password("123456", KEY));
    a
}

fn test1() -> CacheUser {
    let mut u = user("test1");
    u.password = Some(hash_password("123456", KEY));
    u
}

/// Checks and applies a self-service or admin update the way the update
/// endpoint does.
fn update(cache: &mut Cache, token_uid: i64, token_is_admin: bool, uid: i64, req: UpdateUserRequest) -> Result<(), UserAdminError> {
    cache.update_user(token_uid, token_is_admin, uid, &req, KEY)
}

#[test]
fn test_create_name_conflict() {
    let cache = cache_with(vec![(1, admin())]);
    let by = CreateUserBy::Password { email: "user1@zimu.pub", password: "123456" };
    assert_eq!(cache.check_new_user(&CreateUser::new("admin", by, false)), Err(CreateUserError::NameConflict));
}

#[test]
fn test_create_email_conflict() {
    let cache = cache_with(vec![(1, admin())]);
    let by = CreateUserBy::Password { email: "admin@zimu.pub", password: "123456" };
    assert_eq!(cache.check_new_user(&CreateUser::new("test1", by, false)), Err(CreateUserError::EmailConflict));
}

#[test]
fn test_self_update_forbidden_fields() {
    let mut cache = cache_with(vec![(1, admin()), (2, test1()), (3, user("test2"))]);
    let email = UpdateUserRequest { email: Some("new@zimu.pub".to_string()), ..Default::default() };
    assert_eq!(update(&mut cache, 2, false, 2, email), Err(UserAdminError::Forbidden));
    let promote = UpdateUserRequest { is_admin: Some(true), ..Default::default() };
    assert_eq!(update(&mut cache, 2, false, 2, promote), Err(UserAdminError::Forbidden));
    let rename = UpdateUserRequest { name: Some("new_name".to_string()), ..Default::default() };
    assert_eq!(update(&mut cache, 2, false, 3, rename), Err(UserAdminError::Forbidden));
    assert_eq!(cache.users[&2].email, Some("test1@zimu.pub".to_string()));
    assert!(!cache.users[&2].is_admin);
}

#[test]
fn test_self_update_user_name() {
    let mut cache = cache_with(vec![(1, admin()), (2, test1())]);
    let rename = UpdateUserRequest { name: Some("new_name".to_string()), ..Default::default() };
    assert_eq!(update(&mut cache, 2, false, 2, rename), Ok(()));
    assert_eq!(cache.users[&2].api_user_info(2).name, "new_name");
}

#[test]
fn test_self_update_user_password() {
    let mut cache = cache_with(vec![(1, admin()), (2, test1())]);
    let req = UpdateUserRequest { password: Some("newpassword".to_string()), ..Default::default() };
    assert_eq!(update(&mut cache, 2, false, 2, req), Ok(()));
    assert_eq!(ApiToken::password_login(&cache, true, "test1@zimu.pub", "newpassword", KEY), Ok(2));
}

#[test]
fn test_self_update_same_name_with_password() {
    let mut cache = cache_with(vec![(1, admin()), (2, test1())]);
    let req = UpdateUserRequest {
        name: Some("test1".to_string()),
        password: Some("newpassword".to_string()),
        ..Default::default()
    };
    assert_eq!(update(&mut cache, 2, false, 2, req), Ok(()));
    assert_eq!(ApiToken::password_login(&cache, true, "test1@zimu.pub", "newpassword", KEY), Ok(2));
}

#[test]
fn creating_a_user_stores_the_hash_of_its_password() {
    let mut cache = cache_with(vec![(1, admin())]);
    let by = CreateUserBy::Password { email: "new@zimu.pub", password: "secret" };
    let c = CreateUser::new("newbie", by, false).set_bot(true);
    assert_eq!(cache.create_user(5, &c, KEY, 1234), Ok(()));
    let u = &cache.users[&5];
    assert_eq!(u.name, "newbie");
    assert_eq!(u.email, Some("new@zimu.pub".to_string()));
    assert_eq!(u.password, Some(hash_password("secret", KEY)));
    assert_ne!(u.password, Some("secret".to_string()));
    assert_eq!(u.language, "");
    assert!(u.is_bot);
    assert!(!u.is_admin);
    assert_eq!(cache.users.len(), 2);
    assert_eq!(ApiToken::password_login(&cache, true, "new@zimu.pub", "secret", KEY), Ok(5));
}

#[test]
fn a_refused_creation_changes_nothing() {
    let mut cache = cache_with(vec![(1, admin())]);
    let by = CreateUserBy::Password { email: "ADMIN@zimu.pub", password: "secret" };
    let c = CreateUser::new("other", by, false);
    assert_eq!(cache.create_user(5, &c, KEY, 1234), Err(CreateUserError::EmailConflict));
    assert_eq!(cache.users.len(), 1);
    assert!(!cache.users.contains_key(&5));
}

#[test]
fn a_guest_is_created_without_a_password() {
    let mut cache = cache_with(vec![(1, admin())]);
    let c = CreateUser::new("visitor", CreateUserBy::Guest, false);
    assert_eq!(cache.create_user(6, &c, KEY, 1234), Ok(()));
    assert_eq!(cache.users[&6].password, None);
    assert_eq!(cache.users[&6].email, None);
}

#[test]
fn a_refused_update_changes_nothing() {
    let mut cache = cache_with(vec![(1, admin()), (2, test1())]);
    let before = cache.users[&2].password.clone();
    let req = UpdateUserRequest { is_admin: Some(true), password: Some("pw".to_string()), ..Default::default() };
    assert_eq!(cache.update_user(2, false, 2, &req, KEY), Err(UserAdminError::Forbidden));
    assert_eq!(cache.users[&2].password, before);
    assert!(!cache.users[&2].is_admin);
}
