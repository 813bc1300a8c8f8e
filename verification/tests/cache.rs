use std::collections::{BTreeMap, BTreeSet, HashMap, HashSet};

use vachat::agent_convert::ChatMessageContent;
use vachat::bot_rooms::BotRooms;
use vachat::events::{removal_events, BroadcastEvent, KickFromGroupReason};
use vachat::members::{room_members, RoomMembersError};
use vachat::state::{
    BotKey, Cache, CacheContactInfo, CacheDevice, CacheGroup, CacheUser, GroupAnnouncement,
    GroupType, PinnedMessage, UserStatus,
};
use vachat::stored::{load_groups, load_users, sort_pinned, split_targets, StoredGroup, StoredUser};
use vachat::admin_user::{BotKeyRefusal, CreateBotApiKeyResponse, DeleteBotApiKeyResponse};

fn user(name: &str) -> CacheUser {
    CacheUser {
        email: Some(format!("{}@zimu.pub", name)),
        name: name.to_string(),
        password: None,
        gender: 0,
        is_admin: false,
        language: "en-US".to_string(),
        create_by: "password".to_string(),
        devices: Vec::new(),
        mute_user: HashMap::new(),
        mute_group: HashMap::new(),
        burn_after_reading_user: HashMap::new(),
        burn_after_reading_group: HashMap::new(),
        read_index_user: HashMap::new(),
        read_index_group: HashMap::new(),
        pinned_chat_user: HashSet::new(),
        pinned_chat_group: HashSet::new(),
        contacts: HashMap::new(),
        created_at: 0,
        updated_at: 0,
        avatar_updated_at: 0,
        status: UserStatus::Normal,
        is_guest: false,
        webhook_url: None,
        is_bot: false,
        bot_keys: HashMap::new(),
        bot_online: false,
    }
}

fn bot(name: &str) -> CacheUser {
    let mut u = user(name);
    u.is_bot = true;
    u
}

fn group(ty: GroupType, members: &[i64]) -> CacheGroup {
    CacheGroup {
        ty,
        name: "g".to_string(),
        description: String::new(),
        members: members.iter().copied().collect(),
        created_at: 0,
        updated_at: 0,
        avatar_updated_at: 0,
        pinned_messages: Vec::new(),
        announcement: None,
    }
}

fn text(s: &str) -> ChatMessageContent {
    ChatMessageContent {
        properties: None,
        content_type: "text/plain".to_string(),
        content: s.to_string(),
    }
}

fn pinned(mid: i64, created_at: i64) -> PinnedMessage {
    PinnedMessage { mid, created_by: 1, created_at, content: text("x") }
}

fn contact() -> CacheContactInfo {
    CacheContactInfo { created_at: 0, updated_at: 0, status: 0 }
}

// ----- loading -----

#[test]
fn split_targets_by_user_and_group() {
    let rows = vec![
        (Some(2), None, Some(100)),
        (None, Some(7), None),
        (Some(2), None, Some(200)),
        (Some(3), Some(4), Some(1)),
        (None, None, Some(1)),
    ];
    let (users, groups) = split_targets(&rows);
    assert_eq!(users.len(), 1);
    assert_eq!(users.get(&2), Some(&Some(200)));
    assert_eq!(groups.len(), 1);
    assert_eq!(groups.get(&7), Some(&None));
}

fn stored_user(uid: i64, name: &str) -> StoredUser {
    StoredUser {
        uid,
        email: None,
        name: name.to_string(),
        password: Some("h".to_string()),
        gender: 1,
        is_admin: uid == 1,
        language: "zh-CN".to_string(),
        create_by: "password".to_string(),
        created_at: 10,
        updated_at: 20,
        avatar_updated_at: 0,
        status: 0,
        is_guest: false,
        webhook_url: None,
        is_bot: false,
        devices: vec![
            ("web".to_string(), Some("t1".to_string())),
            ("iphone".to_string(), None),
            ("web".to_string(), Some("t2".to_string())),
        ],
        mutes: vec![(Some(5), None, None), (None, Some(9), Some(1000))],
        burn_after_reading: vec![(Some(5), None, 30)],
        read_index: vec![(None, Some(9), 77)],
        pinned_chats: vec![(Some(5), None), (None, Some(9))],
        bot_keys: vec![(1, "dev".to_string(), "k1".to_string(), 5, None)],
        contacts: vec![(5, 1, 2, 3)],
    }
}

#[test]
fn load_users_from_rows() {
    let mut frozen = stored_user(2, "bob");
    frozen.status = -1;
    let users = load_users(vec![stored_user(1, "alice"), frozen, stored_user(1, "alice2")]);
    assert_eq!(users.len(), 2);
    let a = &users[&1];
    assert_eq!(a.name, "alice2");
    assert!(a.is_admin);
    assert_eq!(a.status, UserStatus::Normal);
    assert_eq!(a.devices.len(), 2);
    let web = a.devices.iter().find(|d| d.0 == "web").unwrap();
    assert_eq!(web.1.device_token.as_deref(), Some("t2"));
    assert!(!web.1.connected);
    assert_eq!(a.mute_user.get(&5), Some(&None));
    assert_eq!(a.mute_group.get(&9), Some(&Some(1000)));
    assert_eq!(a.burn_after_reading_user.get(&5), Some(&30));
    assert_eq!(a.read_index_group.get(&9), Some(&77));
    assert!(a.pinned_chat_user.contains(&5));
    assert!(a.pinned_chat_group.contains(&9));
    assert_eq!(a.bot_keys[&1].key, "k1");
    assert_eq!(a.contacts[&5].status, 1);
    assert!(!a.bot_online);
    assert_eq!(users[&2].status, UserStatus::Frozen);
}

#[test]
fn pinned_messages_sort_stably_by_time() {
    let sorted = sort_pinned(vec![pinned(1, 30), pinned(2, 10), pinned(3, 30), pinned(4, 20)]);
    let mids: Vec<i64> = sorted.iter().map(|p| p.mid).collect();
    assert_eq!(mids, vec![2, 4, 1, 3]);
}

#[test]
fn load_groups_with_members_and_announcements() {
    let groups = load_groups(
        vec![
            StoredGroup {
                gid: 10,
                name: "pub".to_string(),
                description: "d".to_string(),
                owner: None,
                is_public: true,
                created_at: 1,
                updated_at: 2,
                avatar_updated_at: 3,
                pinned_messages: vec![pinned(5, 9), pinned(6, 1)],
            },
            StoredGroup {
                gid: 20,
                name: "priv".to_string(),
                description: String::new(),
                owner: Some(1),
                is_public: false,
                created_at: 1,
                updated_at: 2,
                avatar_updated_at: 3,
                pinned_messages: Vec::new(),
            },
        ],
        &vec![(20, 1), (20, 2), (30, 3), (20, 2)],
        vec![
            GroupAnnouncement { gid: 20, content: "a".to_string(), created_by: 1, created_at: 0, updated_at: 0 },
            GroupAnnouncement { gid: 20, content: "b".to_string(), created_by: 1, created_at: 0, updated_at: 0 },
            GroupAnnouncement { gid: 30, content: "c".to_string(), created_by: 1, created_at: 0, updated_at: 0 },
        ],
    );
    assert_eq!(groups.len(), 2);
    assert_eq!(groups[&10].ty, GroupType::Public);
    assert!(groups[&10].members.is_empty());
    let pins: Vec<i64> = groups[&10].pinned_messages.iter().map(|p| p.mid).collect();
    assert_eq!(pins, vec![6, 5]);
    assert_eq!(groups[&20].ty, GroupType::Private { owner: 1 });
    assert_eq!(groups[&20].members.iter().copied().collect::<Vec<_>>(), vec![1, 2]);
    assert_eq!(groups[&20].announcement.as_ref().unwrap().content, "b");
    assert!(groups[&10].announcement.is_none());
}

// ----- removing a user -----

fn sample_cache() -> Cache {
    let mut users = BTreeMap::new();
    let mut u1 = user("u1");
    u1.read_index_user.insert(2, 5);
    u1.read_index_group.insert(20, 8);
    u1.pinned_chat_user.insert(2);
    u1.pinned_chat_group.insert(20);
    u1.pinned_chat_group.insert(30);
    users.insert(1, u1);
    users.insert(2, user("u2"));
    let mut g = user("guest");
    g.is_guest = true;
    users.insert(3, g);
    let mut groups = BTreeMap::new();
    groups.insert(10, group(GroupType::Public, &[]));
    groups.insert(20, group(GroupType::Private { owner: 2 }, &[1, 2]));
    groups.insert(30, group(GroupType::Private { owner: 1 }, &[1, 2]));
    Cache { groups, users }
}

#[test]
fn remove_user_deletes_owned_groups_and_leaves_others() {
    let mut cache = sample_cache();
    let x = cache.remove_user(2).expect("user exists");
    assert!(!x.was_guest);
    assert!(!cache.users.contains_key(&2));
    assert!(!cache.groups.contains_key(&20));
    assert_eq!(cache.groups[&30].members.iter().copied().collect::<Vec<_>>(), vec![1]);
    assert_eq!(x.deleted_groups.len(), 1);
    assert_eq!(x.deleted_groups[0], (20, vec![1, 2]));
    assert_eq!(x.left_private_groups, vec![(30, vec![1])]);
    assert_eq!(x.public_groups, vec![10]);
    assert_eq!(x.remaining_users, vec![1, 3]);
    let u1 = &cache.users[&1];
    assert!(u1.read_index_user.is_empty());
    assert!(u1.read_index_group.is_empty());
    assert!(u1.pinned_chat_user.is_empty());
    assert_eq!(u1.pinned_chat_group.iter().copied().collect::<Vec<_>>(), vec![30]);

    let events = removal_events(&x, 2);
    assert_eq!(events.len(), 3);
    match &events[0] {
        BroadcastEvent::KickFromGroup { targets, gid, reason } => {
            assert_eq!(targets, &vec![1, 2]);
            assert_eq!(*gid, 20);
            assert_eq!(*reason, KickFromGroupReason::GroupDeleted);
        }
        e => panic!("unexpected {:?}", e),
    }
    match &events[1] {
        BroadcastEvent::UserLeavedGroup { targets, gid, uid } => {
            assert_eq!(targets, &vec![1]);
            assert_eq!(*gid, 30);
            assert_eq!(uid, &vec![2]);
        }
        e => panic!("unexpected {:?}", e),
    }
    match &events[2] {
        BroadcastEvent::UserLeavedGroup { targets, gid, uid } => {
            assert_eq!(targets, &vec![1, 3]);
            assert_eq!(*gid, 10);
            assert_eq!(uid, &vec![2]);
        }
        e => panic!("unexpected {:?}", e),
    }
}

#[test]
fn remove_unknown_or_guest_user() {
    let mut cache = sample_cache();
    assert!(cache.remove_user(99).is_none());
    assert_eq!(cache.users.len(), 3);
    assert_eq!(cache.groups.len(), 3);
    let x = cache.remove_user(3).unwrap();
    assert!(x.was_guest);
    assert!(removal_events(&x, 3).is_empty());
    assert_eq!(cache.groups.len(), 3);
}

// ----- mutes -----

#[test]
fn clean_mute_drops_expired_entries() {
    let mut cache = sample_cache();
    let u = cache.users.get_mut(&1).unwrap();
    u.mute_user.insert(2, Some(100));
    u.mute_user.insert(3, Some(300));
    u.mute_user.insert(4, None);
    u.mute_group.insert(20, Some(199));
    assert!(u.is_user_muted(2, 200));
    cache.clean_mute(200);
    let u = &cache.users[&1];
    assert!(!u.mute_user.contains_key(&2));
    assert_eq!(u.mute_user.get(&3), Some(&Some(300)));
    assert_eq!(u.mute_user.get(&4), Some(&None));
    assert!(u.mute_group.is_empty());
    assert!(!u.is_user_muted(2, 200));
}

// ----- pinned messages -----

#[test]
fn pinned_message_edit_and_delete() {
    let mut cache = sample_cache();
    cache.groups.get_mut(&20).unwrap().pinned_messages = vec![pinned(7, 1), pinned(8, 2)];
    cache.groups.get_mut(&30).unwrap().pinned_messages = vec![pinned(7, 1)];
    let ch = cache.update_pinned_message(7, Some(text("edited"))).expect("pinned");
    assert_eq!(ch.gid, 20);
    assert_eq!(ch.targets, vec![1, 2]);
    assert_eq!(ch.message.as_ref().unwrap().content.content, "edited");
    assert_eq!(cache.groups[&20].pinned_messages[0].content.content, "edited");
    assert_eq!(cache.groups[&30].pinned_messages[0].content.content, "x");

    let ch = cache.update_pinned_message(8, None).expect("pinned");
    assert_eq!(ch.gid, 20);
    assert!(ch.message.is_none());
    assert_eq!(cache.groups[&20].pinned_messages.len(), 1);

    assert!(cache.update_pinned_message(99, None).is_none());
}

#[test]
fn pinned_message_in_public_group_targets_everyone() {
    let mut cache = sample_cache();
    cache.groups.get_mut(&10).unwrap().pinned_messages = vec![pinned(4, 1)];
    let ch = cache.update_pinned_message(4, None).unwrap();
    assert_eq!(ch.gid, 10);
    assert_eq!(ch.targets, vec![1, 2, 3]);
}

// ----- the rooms of bots -----

#[test]
fn bot_rooms_from_contacts_and_groups() {
    let mut users = BTreeMap::new();
    let mut b = bot("helper");
    b.contacts.insert(2, contact());
    users.insert(5, b);
    let mut u = user("u2");
    u.contacts.insert(5, contact());
    users.insert(2, u);
    let mut u7 = user("u7");
    u7.contacts.insert(5, contact());
    users.insert(7, u7);
    let mut groups = BTreeMap::new();
    groups.insert(10, group(GroupType::Public, &[]));
    groups.insert(11, group(GroupType::Private { owner: 2 }, &[2]));
    groups.insert(12, group(GroupType::Private { owner: 2 }, &[2, 5]));
    let cache = Cache { groups, users };
    let BotRooms { bot_uids, rooms, dm_rooms } = cache.bot_rooms("localhost");
    assert_eq!(bot_uids, vec![5]);
    assert_eq!(rooms.len(), 1);
    assert_eq!(rooms[0].0, 5);
    assert_eq!(
        rooms[0].1,
        vec![
            "!dm_2_5:localhost".to_string(),
            "!dm_5_7:localhost".to_string(),
            "!group_10:localhost".to_string(),
            "!group_12:localhost".to_string(),
        ]
    );
    assert_eq!(dm_rooms, vec!["!dm_2_5:localhost".to_string(), "!dm_5_7:localhost".to_string()]);
}

// ----- room members -----

#[test]
fn members_of_direct_and_group_rooms() {
    let cache = sample_cache();
    let m = room_members(&cache, "!dm_1_99:localhost", "localhost").unwrap();
    assert_eq!(m.len(), 1);
    assert_eq!(m[0].index, 0);
    assert_eq!(m[0].uid, 1);
    assert_eq!(m[0].display_name, "u1");
    assert_eq!(m[0].user_id, "@u1:localhost");
    assert_eq!(m[0].avatar_url, "mxc://localhost/avatar/1");
    assert_eq!(m[0].event_id, "$dm_1_99_localhost_0");

    let m = room_members(&cache, "!group_20:localhost", "localhost").unwrap();
    assert_eq!(m.iter().map(|x| x.uid).collect::<Vec<_>>(), vec![1, 2]);
    assert_eq!(m[1].index, 1);
    assert_eq!(m[1].event_id, "$group_20_localhost_1");
}

#[test]
fn members_errors() {
    let cache = sample_cache();
    assert_eq!(room_members(&cache, "!dm_1:localhost", "localhost").unwrap_err(), RoomMembersError::InvalidDmFormat);
    assert_eq!(room_members(&cache, "!dm_1_2:other", "localhost").unwrap_err(), RoomMembersError::InvalidDmFormat);
    assert_eq!(room_members(&cache, "!dm_a_2:localhost", "localhost").unwrap_err(), RoomMembersError::InvalidUid);
    assert_eq!(room_members(&cache, "!group_1:other", "localhost").unwrap_err(), RoomMembersError::InvalidGroupFormat);
    assert_eq!(room_members(&cache, "!group_x:localhost", "localhost").unwrap_err(), RoomMembersError::InvalidGid);
    assert_eq!(room_members(&cache, "!group_77:localhost", "localhost").unwrap_err(), RoomMembersError::RoomNotFound);
    assert_eq!(room_members(&cache, "#x:localhost", "localhost").unwrap_err(), RoomMembersError::UnknownFormat);
}

// ----- presenting users -----

#[test]
fn api_user_presents_devices_and_hides_password() {
    let mut u = user("alice");
    u.password = Some("secret".to_string());
    u.devices.push(("web".to_string(), CacheDevice { device_token: Some("t".to_string()), connected: true }));
    u.devices.push(("ios".to_string(), CacheDevice { device_token: None, connected: false }));
    let a = u.api_user(4);
    assert_eq!(a.uid, 4);
    assert_eq!(a.password, "");
    assert!(a.in_online);
    assert_eq!(a.online_devices.len(), 2);
    assert_eq!(a.online_devices[0].device, "web");
    assert!(a.online_devices[0].is_online);
    assert!(!a.online_devices[1].is_online);
    let info = u.api_user_info(4);
    assert_eq!(info.name, "alice");
    assert!(!info.msg_smtp_notify_enable);
    assert!(info.birthday.is_none());
}

#[test]
fn bot_keys_and_users_are_listed() {
    let mut b = bot("b");
    b.bot_keys.insert(3, BotKey { name: "k3".to_string(), key: "x".to_string(), created_at: 1, last_used: None });
    b.bot_keys.insert(4, BotKey { name: "k4".to_string(), key: "y".to_string(), created_at: 2, last_used: Some(9) });
    let mut infos = b.bot_key_infos();
    infos.sort_by_key(|i| i.id);
    assert_eq!(infos.len(), 2);
    assert_eq!(infos[1].name, "k4");
    assert_eq!(infos[1].last_used, Some(9));

    let cache = sample_cache();
    let all = cache.api_users();
    assert_eq!(all.iter().map(|u| u.uid).collect::<Vec<_>>(), vec![1, 2, 3]);
}

#[test]
fn api_group_lists_members_in_order() {
    let mut g = group(GroupType::Private { owner: 3 }, &[9, 2, 5]);
    g.description = "about".to_string();
    g.pinned_messages = vec![pinned(1, 1)];
    let a = g.api_group(42);
    assert_eq!(a.gid, 42);
    assert_eq!(a.owner, Some(3));
    assert_eq!(a.members, vec![2, 5, 9]);
    assert_eq!(a.description.as_deref(), Some("about"));
    assert!(!a.is_public);
    assert_eq!(a.pinned_messages.len(), 1);
    let members: BTreeSet<i64> = [1].into_iter().collect();
    let p = CacheGroup { members, ..group(GroupType::Public, &[]) };
    assert!(p.contains_user(77));
    assert!(p.description_opt().is_none());
}

// ----- bot keys -----

#[test]
fn bot_keys_are_created_listed_and_deleted() {
    let mut users = BTreeMap::new();
    users.insert(5, bot("helper"));
    let mut cache = Cache { groups: BTreeMap::new(), users };
    let key = |name: &str| BotKey { name: name.to_string(), key: format!("k-{}", name), created_at: 1, last_used: None };

    assert_eq!(cache.check_new_bot_key(false, 5, "a"), Err(BotKeyRefusal::Forbidden));
    assert_eq!(cache.check_new_bot_key(true, 6, "a"), Err(BotKeyRefusal::UnknownUser));
    assert_eq!(cache.check_new_bot_key(true, 5, "a"), Ok(None));
    cache.add_bot_key(5, 10, key("a"));
    assert_eq!(cache.check_new_bot_key(true, 5, "a"), Ok(Some(CreateBotApiKeyResponse::ConflictName)));
    cache.add_bot_key(5, 11, key("b"));

    let mut listed = cache.list_bot_api_key(true, 5).unwrap();
    listed.sort_by_key(|k| k.id);
    assert_eq!(listed.len(), 2);
    assert_eq!((listed[0].id, listed[0].name.as_str(), listed[0].key.as_str()), (10, "a", "k-a"));
    assert_eq!((listed[1].id, listed[1].name.as_str()), (11, "b"));
    assert!(cache.list_bot_api_key(false, 5).is_err());

    assert_eq!(cache.check_bot_key_removal(true, 5, 10), Ok(DeleteBotApiKeyResponse::Deleted));
    cache.remove_bot_key(5, 10);
    assert_eq!(cache.check_bot_key_removal(true, 5, 10), Ok(DeleteBotApiKeyResponse::KeyNotFound));
    assert_eq!(cache.check_bot_key_removal(true, 9, 10), Err(BotKeyRefusal::UnknownUser));
    assert_eq!(cache.users[&5].bot_keys.len(), 1);
    assert_eq!(cache.users[&5].name, "helper");
}

#[test]
fn chat_messages_are_forwarded_to_the_webhooks_of_their_targets() {
    let mut a = user("a");
    a.webhook_url = Some("https://a.example/hook".to_string());
    let b = user("b");
    let mut c = user("c");
    c.webhook_url = Some("https://c.example/hook".to_string());
    let mut d = user("d");
    d.webhook_url = Some("https://d.example/hook".to_string());
    let mut users = BTreeMap::new();
    users.insert(4, d);
    users.insert(3, c);
    users.insert(2, b);
    users.insert(1, a);
    let cache = Cache { groups: BTreeMap::new(), users };
    let targets: BTreeSet<i64> = [1, 2, 3, 9].into_iter().collect();
    assert_eq!(cache.webhook_urls(&targets), vec!["https://a.example/hook", "https://c.example/hook"]);
    assert!(cache.webhook_urls(&BTreeSet::new()).is_empty());
}

#[test]
fn test_clean_mute() {
    // User 1 mutes user 2 for 6 s and group 20 for 3 s at time 0; cleaning
    // at 0 keeps both, at 4 s the group mute is gone, at 7 s both are.
    let mut cache = sample_cache();
    let u = cache.users.get_mut(&1).unwrap();
    u.mute_user.insert(2, Some(6_000));
    u.mute_group.insert(20, Some(3_000));
    let mutes = |c: &Cache| {
        let u = &c.users[&1];
        let mut users: Vec<i64> = u.mute_user.keys().copied().collect();
        let mut groups: Vec<i64> = u.mute_group.keys().copied().collect();
        users.sort_unstable();
        groups.sort_unstable();
        (users, groups)
    };
    cache.clean_mute(0);
    assert_eq!(mutes(&cache), (vec![2], vec![20]));
    cache.clean_mute(4_000);
    assert_eq!(mutes(&cache), (vec![2], vec![]));
    cache.clean_mute(7_000);
    assert_eq!(mutes(&cache), (vec![], vec![]));
}

#[test]
fn test_delete_user_then_delete_owned_private_group() {
    let mut users = BTreeMap::new();
    users.insert(1, user("admin"));
    users.insert(2, user("test1"));
    let mut groups = BTreeMap::new();
    for gid in 10..20 {
        groups.insert(gid, group(GroupType::Private { owner: 2 }, &[2]));
    }
    let mut cache = Cache { groups, users };
    let x = cache.remove_user(2).expect("user exists");
    assert_eq!(x.deleted_groups.len(), 10);
    for gid in 10..20 {
        assert!(!cache.groups.contains_key(&gid));
    }
    assert!(!cache.users.contains_key(&2));
}
