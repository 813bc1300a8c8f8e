//! Building the cached users and groups from the rows the database holds.

use crate::state::{
    BotKey, CacheContactInfo, CacheDevice, CacheGroup, CacheUser, GroupAnnouncement, GroupType,
    PinnedMessage, UserStatus,
};
use std::collections::{BTreeMap, BTreeSet, HashMap, HashSet};
use vstd::prelude::*;

verus! {

broadcast use {vstd::std_specs::hash::group_hash_axioms, vstd::std_specs::btree::group_btree_axioms};

// ----- rows naming a user or a group -----

/// The values of the rows that name a user and no group, by user id; a later
/// row for the same user replaces an earlier one.
pub open spec fn user_entries<V>(rows: Seq<(Option<i64>, Option<i64>, V)>) -> Map<i64, V>
    decreases rows.len(),
{
    if rows.len() == 0 {
        Map::empty()
    } else {
        let r = rows.last();
        let m = user_entries(rows.drop_last());
        match (r.0, r.1) {
            (Some(uid), None) => m.insert(uid, r.2),
            _ => m,
        }
    }
}

/// The values of the rows that name a group and no user, by group id; a
/// later row for the same group replaces an earlier one.
pub open spec fn group_entries<V>(rows: Seq<(Option<i64>, Option<i64>, V)>) -> Map<i64, V>
    decreases rows.len(),
{
    if rows.len() == 0 {
        Map::empty()
    } else {
        let r = rows.last();
        let m = group_entries(rows.drop_last());
        match (r.0, r.1) {
            (None, Some(gid)) => m.insert(gid, r.2),
            _ => m,
        }
    }
}

/// Splits rows that name a user or a group into a map by user and a map by
/// group; rows naming both or neither are left out.
pub fn split_targets<V: Copy>(rows: &Vec<(Option<i64>, Option<i64>, V)>) -> (r: (
    HashMap<i64, V>,
    HashMap<i64, V>,
))
    ensures
        r.0@ == user_entries(rows@),
        r.1@ == group_entries(rows@),
{
    let mut users: HashMap<i64, V> = HashMap::new();
    let mut groups: HashMap<i64, V> = HashMap::new();
    let mut i: usize = 0;
    while i < rows.len()
        invariant
            i <= rows.len(),
            users@ == user_entries(rows@.take(i as int)),
            groups@ == group_entries(rows@.take(i as int)),
        decreases rows.len() - i,
    {
        let (u, g, v) = rows[i];
        assert(rows@.take(i + 1).drop_last() =~= rows@.take(i as int));
        assert(rows@.take(i + 1).last() == rows@[i as int]);
        match (u, g) {
            (Some(uid), None) => {
                users.insert(uid, v);
            },
            (None, Some(gid)) => {
                groups.insert(gid, v);
            },
            _ => {},
        }
        i += 1;
    }
    assert(rows@.take(rows.len() as int) =~= rows@);
    (users, groups)
}

/// The users that rows naming a user and no group name.
pub open spec fn user_set(rows: Seq<(Option<i64>, Option<i64>)>) -> Set<i64> {
    Set::new(|uid: i64| exists|i: int| 0 <= i < rows.len() && #[trigger] rows[i] == (Some(uid), None::<i64>))
}

/// The groups that rows naming a group and no user name.
pub open spec fn group_set(rows: Seq<(Option<i64>, Option<i64>)>) -> Set<i64> {
    Set::new(|gid: i64| exists|i: int| 0 <= i < rows.len() && #[trigger] rows[i] == (None::<i64>, Some(gid)))
}

/// Splits rows that name a user or a group into the set of users and the
/// set of groups; rows naming both or neither are left out.
pub fn split_target_sets(rows: &Vec<(Option<i64>, Option<i64>)>) -> (r: (HashSet<i64>, HashSet<i64>))
    ensures
        r.0@ == user_set(rows@),
        r.1@ == group_set(rows@),
{
    let mut users: HashSet<i64> = HashSet::new();
    let mut groups: HashSet<i64> = HashSet::new();
    let mut i: usize = 0;
    while i < rows.len()
        invariant
            i <= rows.len(),
            users@ == user_set(rows@.take(i as int)),
            groups@ == group_set(rows@.take(i as int)),
        decreases rows.len() - i,
    {
        let (u, g) = rows[i];
        let ghost before = rows@.take(i as int);
        let ghost after = rows@.take(i + 1);
        assert(forall|j: int| 0 <= j < i ==> after[j] == before[j]);
        assert(after[i as int] == rows@[i as int]);
        match (u, g) {
            (Some(uid), None) => {
                users.insert(uid);
            },
            (None, Some(gid)) => {
                groups.insert(gid);
            },
            _ => {},
        }
        assert(users@ =~= user_set(after));
        assert(groups@ =~= group_set(after));
        i += 1;
    }
    assert(rows@.take(rows.len() as int) =~= rows@);
    (users, groups)
}

// ----- devices -----

/// The token the last row for the device `name` gives, `None` when no row
/// names it.
pub open spec fn last_device_token(rows: Seq<(String, Option<String>)>, name: Seq<char>) -> Option<
    Option<String>,
>
    decreases rows.len(),
{
    if rows.len() == 0 {
        None
    } else if rows.last().0@ == name {
        Some(rows.last().1)
    } else {
        last_device_token(rows.drop_last(), name)
    }
}

/// The devices loaded from rows `(device, token)`: each device named by a
/// row once, with the token of its last row, none with an open stream.
pub open spec fn devices_loaded(rows: Seq<(String, Option<String>)>, devs: Seq<(String, CacheDevice)>) -> bool {
    &&& forall|j: int, k: int| 0 <= j < k < devs.len() ==> devs[j].0@ != devs[k].0@
    &&& forall|j: int|
        0 <= j < devs.len() ==> !(#[trigger] devs[j]).1.connected && last_device_token(
            rows,
            devs[j].0@,
        ) == Some(devs[j].1.device_token)
    &&& forall|i: int|
        0 <= i < rows.len() ==> exists|j: int| 0 <= j < devs.len() && #[trigger] devs[j].0@ == (
        #[trigger] rows[i]).0@
}

/// A copy of an optional text.
fn copy_text(t: &Option<String>) -> (r: Option<String>)
    ensures
        r == *t,
{
    match t {
        Some(s) => Some(s.clone()),
        None => None,
    }
}

/// The position of the device `name`.
fn find_device(devs: &Vec<(String, CacheDevice)>, name: &str) -> (r: Option<usize>)
    ensures
        match r {
            Some(j) => j < devs.len() && devs@[j as int].0@ == name@,
            None => forall|k: int| 0 <= k < devs.len() ==> devs@[k].0@ != name@,
        },
{
    let mut j: usize = 0;
    while j < devs.len()
        invariant
            j <= devs.len(),
            forall|k: int| 0 <= k < j ==> devs@[k].0@ != name@,
        decreases devs.len() - j,
    {
        if crate::text::str_equal(devs[j].0.as_str(), name) {
            return Some(j);
        }
        j += 1;
    }
    None
}

/// The devices of a user from its rows `(device, token)`.
pub fn load_devices(rows: &Vec<(String, Option<String>)>) -> (devs: Vec<(String, CacheDevice)>)
    ensures
        devices_loaded(rows@, devs@),
{
    let mut devs: Vec<(String, CacheDevice)> = Vec::new();
    let mut i: usize = 0;
    while i < rows.len()
        invariant
            i <= rows.len(),
            devices_loaded(rows@.take(i as int), devs@),
        decreases rows.len() - i,
    {
        let ghost before = rows@.take(i as int);
        let ghost after = rows@.take(i + 1);
        assert(after.drop_last() =~= before);
        assert(after.last() == rows@[i as int]);
        let name = &rows[i].0;
        let found = find_device(&devs, name.as_str());
        let entry = CacheDevice { device_token: copy_text(&rows[i].1), connected: false };
        let ghost old_devs = devs@;
        if let Some(j) = found {
            let n = devs[j].0.clone();
            devs.set(j, (n, entry));
            assert forall|k: int| 0 <= k < devs@.len() implies !(#[trigger] devs@[k]).1.connected
                && last_device_token(after, devs@[k].0@) == Some(devs@[k].1.device_token) by {
                if k != j {
                    assert(old_devs[k] == devs@[k]);
                }
            }
            assert forall|a: int| 0 <= a < after.len() implies exists|b: int|
                0 <= b < devs@.len() && #[trigger] devs@[b].0@ == (#[trigger] after[a]).0@ by {
                if a < i {
                    assert(after[a] == before[a]);
                    let b = choose|b: int| 0 <= b < old_devs.len() && old_devs[b].0@ == before[a].0@;
                    assert(devs@[b].0@ == old_devs[b].0@);
                } else {
                    assert(devs@[j as int].0@ == after[a].0@);
                }
            }
        } else {
            devs.push((name.clone(), entry));
            assert forall|k: int| 0 <= k < devs@.len() implies !(#[trigger] devs@[k]).1.connected
                && last_device_token(after, devs@[k].0@) == Some(devs@[k].1.device_token) by {
                if k < old_devs.len() {
                    assert(old_devs[k] == devs@[k]);
                }
            }
            assert forall|a: int| 0 <= a < after.len() implies exists|b: int|
                0 <= b < devs@.len() && #[trigger] devs@[b].0@ == (#[trigger] after[a]).0@ by {
                if a < i {
                    assert(after[a] == before[a]);
                    let b = choose|b: int| 0 <= b < old_devs.len() && old_devs[b].0@ == before[a].0@;
                    assert(devs@[b] == old_devs[b]);
                } else {
                    assert(devs@[old_devs.len() as int].0@ == after[a].0@);
                }
            }
        }
        i += 1;
    }
    assert(rows@.take(rows.len() as int) =~= rows@);
    devs
}

// ----- bot keys and contacts -----

/// The bot keys of rows `(id, name, key, created_at, last_used)`, by id; a
/// later row for the same id replaces an earlier one.
pub open spec fn key_entries(rows: Seq<(i64, String, String, i64, Option<i64>)>) -> Map<i64, BotKey>
    decreases rows.len(),
{
    if rows.len() == 0 {
        Map::empty()
    } else {
        let r = rows.last();
        key_entries(rows.drop_last()).insert(
            r.0,
            BotKey { name: r.1, key: r.2, created_at: r.3, last_used: r.4 },
        )
    }
}

/// The bot keys of a user from its rows `(id, name, key, created_at, last_used)`.
pub fn load_bot_keys(rows: &Vec<(i64, String, String, i64, Option<i64>)>) -> (keys: HashMap<
    i64,
    BotKey,
>)
    ensures
        keys@ == key_entries(rows@),
{
    let mut keys: HashMap<i64, BotKey> = HashMap::new();
    let mut i: usize = 0;
    while i < rows.len()
        invariant
            i <= rows.len(),
            keys@ == key_entries(rows@.take(i as int)),
        decreases rows.len() - i,
    {
        assert(rows@.take(i + 1).drop_last() =~= rows@.take(i as int));
        assert(rows@.take(i + 1).last() == rows@[i as int]);
        let r = &rows[i];
        keys.insert(
            r.0,
            BotKey { name: r.1.clone(), key: r.2.clone(), created_at: r.3, last_used: r.4 },
        );
        i += 1;
    }
    assert(rows@.take(rows.len() as int) =~= rows@);
    keys
}

/// The contacts of rows `(target, status, created_at, updated_at)`, by
/// target; a later row for the same target replaces an earlier one.
pub open spec fn contact_entries(rows: Seq<(i64, i32, i64, i64)>) -> Map<i64, CacheContactInfo>
    decreases rows.len(),
{
    if rows.len() == 0 {
        Map::empty()
    } else {
        let r = rows.last();
        contact_entries(rows.drop_last()).insert(
            r.0,
            CacheContactInfo { created_at: r.2, updated_at: r.3, status: r.1 },
        )
    }
}

/// The contacts of a user from its rows `(target, status, created_at, updated_at)`.
pub fn load_contacts(rows: &Vec<(i64, i32, i64, i64)>) -> (contacts: HashMap<i64, CacheContactInfo>)
    ensures
        contacts@ == contact_entries(rows@),
{
    let mut contacts: HashMap<i64, CacheContactInfo> = HashMap::new();
    let mut i: usize = 0;
    while i < rows.len()
        invariant
            i <= rows.len(),
            contacts@ == contact_entries(rows@.take(i as int)),
        decreases rows.len() - i,
    {
        assert(rows@.take(i + 1).drop_last() =~= rows@.take(i as int));
        assert(rows@.take(i + 1).last() == rows@[i as int]);
        let (target, status, created_at, updated_at) = rows[i];
        contacts.insert(target, CacheContactInfo { created_at, updated_at, status });
        i += 1;
    }
    assert(rows@.take(rows.len() as int) =~= rows@);
    contacts
}

// ----- users -----

/// A user as stored: its row of the `user` table, and the rows of its
/// devices `(device, token)`, mutes `(user, group, expiry)`,
/// burn-after-reading times `(user, group, seconds)`, read positions
/// `(user, group, mid)`, pinned chats `(user, group)`, bot keys
/// `(id, name, key, created_at, last_used)` and contacts
/// `(target, status, created_at, updated_at)`. Times are milliseconds since
/// the epoch.
pub struct StoredUser {
    pub uid: i64,
    pub email: Option<String>,
    pub name: String,
    pub password: Option<String>,
    pub gender: i32,
    pub is_admin: bool,
    pub language: String,
    pub create_by: String,
    pub created_at: i64,
    pub updated_at: i64,
    pub avatar_updated_at: i64,
    pub status: i8,
    pub is_guest: bool,
    pub webhook_url: Option<String>,
    pub is_bot: bool,
    pub devices: Vec<(String, Option<String>)>,
    pub mutes: Vec<(Option<i64>, Option<i64>, Option<i64>)>,
    pub burn_after_reading: Vec<(Option<i64>, Option<i64>, i64)>,
    pub read_index: Vec<(Option<i64>, Option<i64>, i64)>,
    pub pinned_chats: Vec<(Option<i64>, Option<i64>)>,
    pub bot_keys: Vec<(i64, String, String, i64, Option<i64>)>,
    pub contacts: Vec<(i64, i32, i64, i64)>,
}

/// The cached user `u` is the stored user `s` loaded: the fields of its row,
/// its status from the stored code, the maps and sets from its rows, and a
/// bot that is not online.
pub open spec fn loaded_user(s: StoredUser, u: CacheUser) -> bool {
    &&& u.email == s.email
    &&& u.name == s.name
    &&& u.password == s.password
    &&& u.gender == s.gender
    &&& u.is_admin == s.is_admin
    &&& u.language == s.language
    &&& u.create_by == s.create_by
    &&& devices_loaded(s.devices@, u.devices@)
    &&& u.mute_user@ == user_entries(s.mutes@)
    &&& u.mute_group@ == group_entries(s.mutes@)
    &&& u.burn_after_reading_user@ == user_entries(s.burn_after_reading@)
    &&& u.burn_after_reading_group@ == group_entries(s.burn_after_reading@)
    &&& u.read_index_user@ == user_entries(s.read_index@)
    &&& u.read_index_group@ == group_entries(s.read_index@)
    &&& u.pinned_chat_user@ == user_set(s.pinned_chats@)
    &&& u.pinned_chat_group@ == group_set(s.pinned_chats@)
    &&& u.contacts@ == contact_entries(s.contacts@)
    &&& u.created_at == s.created_at
    &&& u.updated_at == s.updated_at
    &&& u.avatar_updated_at == s.avatar_updated_at
    &&& u.status == (if s.status == 0 {
        UserStatus::Normal
    } else {
        UserStatus::Frozen
    })
    &&& u.is_guest == s.is_guest
    &&& u.webhook_url == s.webhook_url
    &&& u.is_bot == s.is_bot
    &&& u.bot_keys@ == key_entries(s.bot_keys@)
    &&& !u.bot_online
}

impl CacheUser {
    /// The cached user of a stored user, with its id.
    pub fn from_stored(s: StoredUser) -> (r: (i64, CacheUser))
        ensures
            r.0 == s.uid,
            loaded_user(s, r.1),
    {
        let devices = load_devices(&s.devices);
        let (mute_user, mute_group) = split_targets(&s.mutes);
        let (burn_after_reading_user, burn_after_reading_group) = split_targets(
            &s.burn_after_reading,
        );
        let (read_index_user, read_index_group) = split_targets(&s.read_index);
        let (pinned_chat_user, pinned_chat_group) = split_target_sets(&s.pinned_chats);
        let bot_keys = load_bot_keys(&s.bot_keys);
        let contacts = load_contacts(&s.contacts);
        let u = CacheUser {
            email: s.email,
            name: s.name,
            password: s.password,
            gender: s.gender,
            is_admin: s.is_admin,
            language: s.language,
            create_by: s.create_by,
            devices,
            mute_user,
            mute_group,
            burn_after_reading_user,
            burn_after_reading_group,
            read_index_user,
            read_index_group,
            pinned_chat_user,
            pinned_chat_group,
            contacts,
            created_at: s.created_at,
            updated_at: s.updated_at,
            avatar_updated_at: s.avatar_updated_at,
            status: UserStatus::from_code(s.status),
            is_guest: s.is_guest,
            webhook_url: s.webhook_url,
            is_bot: s.is_bot,
            bot_keys,
            bot_online: false,
        };
        (s.uid, u)
    }
}

/// The cached users are the stored users loaded: one per stored id, loaded
/// from the last stored user with that id.
pub open spec fn users_loaded(stored: Seq<StoredUser>, users: Map<i64, CacheUser>) -> bool {
    &&& forall|uid: i64|
        users.contains_key(uid) <==> exists|i: int| 0 <= i < stored.len() && #[trigger] stored[i].uid == uid
    &&& forall|uid: i64|
        #![trigger users[uid]]
        users.contains_key(uid) ==> exists|i: int|
            0 <= i < stored.len() && #[trigger] stored[i].uid == uid && (forall|j: int|
                i < j < stored.len() ==> stored[j].uid != uid) && loaded_user(stored[i], users[uid])
}

/// The cached users from the stored ones.
pub fn load_users(stored: Vec<StoredUser>) -> (users: BTreeMap<i64, CacheUser>)
    ensures
        users_loaded(stored@, users@),
{
    let ghost all = stored@;
    let mut users: BTreeMap<i64, CacheUser> = BTreeMap::new();
    for s in it: stored.into_iter()
        invariant
            it.seq() == all,
            users_loaded(all.take(it.index() as int), users@),
    {
        let ghost k = it.index() as int;
        let ghost before = all.take(k);
        let ghost after = all.take(k + 1);
        assert(forall|j: int| 0 <= j < k ==> after[j] == before[j]);
        assert(after[k] == s);
        let (uid, u) = CacheUser::from_stored(s);
        users.insert(uid, u);
        assert forall|x: i64| users@.contains_key(x) implies exists|i: int|
            0 <= i < after.len() && #[trigger] after[i].uid == x && (forall|j: int|
                i < j < after.len() ==> after[j].uid != x) && loaded_user(after[i], users@[x]) by {
            if x != uid {
                let i = choose|i: int|
                    0 <= i < before.len() && #[trigger] before[i].uid == x && (forall|j: int|
                        i < j < before.len() ==> before[j].uid != x) && loaded_user(before[i], users@[x]);
                assert(after[i] == before[i]);
            } else {
                assert(after[k].uid == x);
            }
        }
        assert forall|x: i64| users@.contains_key(x) <==> exists|i: int|
            0 <= i < after.len() && #[trigger] after[i].uid == x by {
            if x != uid && users@.contains_key(x) {
                let i = choose|i: int| 0 <= i < before.len() && #[trigger] before[i].uid == x;
                assert(after[i] == before[i]);
            }
            if exists|i: int| 0 <= i < after.len() && #[trigger] after[i].uid == x {
                let i = choose|i: int| 0 <= i < after.len() && #[trigger] after[i].uid == x;
                if i < k {
                    assert(before[i] == after[i]);
                }
            }
        }
    }
    assert(all.take(all.len() as int) =~= all);
    users
}

// ----- pinned messages -----

/// The position at which a message pinned at `t` goes in a list sorted by
/// pinning time: before the first message pinned later, after all others.
pub open spec fn later_position(s: Seq<PinnedMessage>, t: i64) -> int
    decreases s.len(),
{
    if s.len() == 0 {
        0
    } else if s[0].created_at > t {
        0
    } else {
        1 + later_position(s.skip(1), t)
    }
}

/// Pinned messages sorted by the time they were pinned; messages pinned at
/// the same time keep their order.
pub open spec fn sorted_by_time(s: Seq<PinnedMessage>) -> Seq<PinnedMessage>
    decreases s.len(),
{
    if s.len() == 0 {
        s
    } else {
        let r = sorted_by_time(s.drop_last());
        r.insert(later_position(r, s.last().created_at), s.last())
    }
}

/// Whether pinned messages are in order of the time they were pinned.
pub open spec fn time_ordered(s: Seq<PinnedMessage>) -> bool {
    forall|i: int, j: int| 0 <= i < j < s.len() ==> s[i].created_at <= s[j].created_at
}

proof fn lemma_later_position(s: Seq<PinnedMessage>, t: i64)
    ensures
        0 <= later_position(s, t) <= s.len(),
        forall|i: int| 0 <= i < later_position(s, t) ==> s[i].created_at <= t,
        later_position(s, t) < s.len() ==> s[later_position(s, t)].created_at > t,
    decreases s.len(),
{
    if s.len() > 0 && s[0].created_at <= t {
        lemma_later_position(s.skip(1), t);
        assert forall|i: int| 0 <= i < later_position(s, t) implies s[i].created_at <= t by {
            if i > 0 {
                assert(s[i] == s.skip(1)[i - 1]);
            }
        }
    }
}

/// Sorting by pinning time gives the same messages in time order.
pub proof fn lemma_sorted_by_time(s: Seq<PinnedMessage>)
    ensures
        time_ordered(sorted_by_time(s)),
        sorted_by_time(s).to_multiset() == s.to_multiset(),
    decreases s.len(),
{
    broadcast use vstd::multiset::group_multiset_axioms;
    broadcast use vstd::seq_lib::group_to_multiset_ensures;

    if s.len() > 0 {
        let r = sorted_by_time(s.drop_last());
        lemma_sorted_by_time(s.drop_last());
        let x = s.last();
        let p = later_position(r, x.created_at);
        lemma_later_position(r, x.created_at);
        let q = r.insert(p, x);
        assert forall|i: int, j: int| 0 <= i < j < q.len() implies q[i].created_at
            <= q[j].created_at by {
            if j < p {
                assert(q[i] == r[i] && q[j] == r[j]);
            } else if j == p {
                assert(q[i] == r[i]);
            } else if i < p {
                assert(q[i] == r[i] && q[j] == r[j - 1]);
            } else if i == p {
                assert(q[j] == r[j - 1]);
                assert(r[p].created_at > x.created_at);
                if j - 1 > p {
                    assert(r[p].created_at <= r[j - 1].created_at);
                }
            } else {
                assert(q[i] == r[i - 1] && q[j] == r[j - 1]);
            }
        }
        vstd::seq_lib::to_multiset_insert(r, p, x);
        assert(s =~= s.drop_last().push(x));
        assert(s.to_multiset() == s.drop_last().to_multiset().insert(x));
    }
}

/// Sorts pinned messages by the time they were pinned, keeping the order of
/// messages pinned at the same time.
pub fn sort_pinned(pinned: Vec<PinnedMessage>) -> (r: Vec<PinnedMessage>)
    ensures
        r@ == sorted_by_time(pinned@),
{
    let ghost all = pinned@;
    let mut r: Vec<PinnedMessage> = Vec::new();
    for m in it: pinned.into_iter()
        invariant
            it.seq() == all,
            r@ == sorted_by_time(all.take(it.index() as int)),
    {
        let ghost k = it.index() as int;
        assert(all.take(k + 1).drop_last() =~= all.take(k));
        assert(all.take(k + 1).last() == m);
        let mut p: usize = 0;
        assert(r@.skip(0) =~= r@);
        while p < r.len() && r[p].created_at <= m.created_at
            invariant
                p <= r.len(),
                later_position(r@, m.created_at) == p + later_position(r@.skip(p as int), m.created_at),
            decreases r.len() - p,
        {
            assert(r@.skip(p as int).skip(1) =~= r@.skip(p + 1));
            assert(r@.skip(p as int)[0] == r@[p as int]);
            p += 1;
        }
        proof {
            if p < r.len() {
                assert(r@.skip(p as int)[0] == r@[p as int]);
            }
        }
        r.insert(p, m);
    }
    assert(all.take(all.len() as int) =~= all);
    r
}

// ----- groups -----

/// A group as stored: its row of the `group` table, with an owner when it
/// is private, and its pinned messages that still exist, in any order.
/// Times are milliseconds since the epoch.
pub struct StoredGroup {
    pub gid: i64,
    pub name: String,
    pub description: String,
    pub owner: Option<i64>,
    pub is_public: bool,
    pub created_at: i64,
    pub updated_at: i64,
    pub avatar_updated_at: i64,
    pub pinned_messages: Vec<PinnedMessage>,
}

/// The members that rows `(gid, uid)` give the group `gid`.
pub open spec fn group_members(rows: Seq<(i64, i64)>, gid: i64) -> Set<i64> {
    Set::new(|uid: i64| exists|i: int| 0 <= i < rows.len() && #[trigger] rows[i] == (gid, uid))
}

/// The announcement the last announcement of the group `gid` gives.
pub open spec fn last_announcement(anns: Seq<GroupAnnouncement>, gid: i64) -> Option<GroupAnnouncement>
    decreases anns.len(),
{
    if anns.len() == 0 {
        None
    } else if anns.last().gid == gid {
        Some(anns.last())
    } else {
        last_announcement(anns.drop_last(), gid)
    }
}

/// The cached group `g` is the stored group `s` loaded with its member rows
/// and announcements.
pub open spec fn group_loaded(
    s: StoredGroup,
    rows: Seq<(i64, i64)>,
    anns: Seq<GroupAnnouncement>,
    g: CacheGroup,
) -> bool {
    &&& g.ty == (if s.is_public {
        GroupType::Public
    } else {
        GroupType::Private { owner: s.owner->0 }
    })
    &&& g.name == s.name
    &&& g.description == s.description
    &&& g.members@ == group_members(rows, s.gid)
    &&& g.created_at == s.created_at
    &&& g.updated_at == s.updated_at
    &&& g.avatar_updated_at == s.avatar_updated_at
    &&& g.pinned_messages@ == sorted_by_time(s.pinned_messages@)
    &&& g.announcement == last_announcement(anns, s.gid)
}

/// The cached groups are the stored groups loaded: one per stored id, from
/// the last stored group with that id.
pub open spec fn groups_loaded(
    stored: Seq<StoredGroup>,
    rows: Seq<(i64, i64)>,
    anns: Seq<GroupAnnouncement>,
    groups: Map<i64, CacheGroup>,
) -> bool {
    &&& forall|gid: i64|
        groups.contains_key(gid) <==> exists|i: int| 0 <= i < stored.len() && #[trigger] stored[i].gid == gid
    &&& forall|gid: i64|
        #![trigger groups[gid]]
        groups.contains_key(gid) ==> exists|i: int|
            0 <= i < stored.len() && #[trigger] stored[i].gid == gid && (forall|j: int|
                i < j < stored.len() ==> stored[j].gid != gid) && group_loaded(
                stored[i],
                rows,
                anns,
                groups[gid],
            )
}

/// The cached groups from the stored groups, the member rows `(gid, uid)`
/// and the announcements; rows and announcements of unknown groups are left
/// out. A private group must have an owner.
pub fn load_groups(
    stored: Vec<StoredGroup>,
    rows: &Vec<(i64, i64)>,
    anns: Vec<GroupAnnouncement>,
) -> (groups: BTreeMap<i64, CacheGroup>)
    requires
        forall|i: int| 0 <= i < stored@.len() ==> (#[trigger] stored@[i]).is_public || stored@[i].owner is Some,
    ensures
        groups_loaded(stored@, rows@, anns@, groups@),
{
    let ghost all = stored@;
    let ghost arows = rows@;
    let ghost aanns = anns@;
    let mut groups: BTreeMap<i64, CacheGroup> = BTreeMap::new();
    // the groups, without members or announcements
    for s in it: stored.into_iter()
        invariant
            it.seq() == all,
            forall|i: int| 0 <= i < all.len() ==> (#[trigger] all[i]).is_public || all[i].owner is Some,
            groups_loaded(all.take(it.index() as int), Seq::empty(), Seq::empty(), groups@),
    {
        let ghost k = it.index() as int;
        let ghost before = all.take(k);
        let ghost after = all.take(k + 1);
        assert(forall|j: int| 0 <= j < k ==> after[j] == before[j]);
        assert(after[k] == s);
        assert(all[k] == s);
        let gid = s.gid;
        let ty = if s.is_public {
            GroupType::Public
        } else {
            match s.owner {
                Some(owner) => GroupType::Private { owner },
                None => GroupType::Public,
            }
        };
        let g = CacheGroup {
            ty,
            name: s.name,
            description: s.description,
            members: BTreeSet::new(),
            created_at: s.created_at,
            updated_at: s.updated_at,
            avatar_updated_at: s.avatar_updated_at,
            pinned_messages: sort_pinned(s.pinned_messages),
            announcement: None,
        };
        assert(group_members(Seq::empty(), gid) =~= Set::empty());
        groups.insert(gid, g);
        assert forall|x: i64| groups@.contains_key(x) implies exists|i: int|
            0 <= i < after.len() && #[trigger] after[i].gid == x && (forall|j: int|
                i < j < after.len() ==> after[j].gid != x) && group_loaded(
                after[i],
                Seq::empty(),
                Seq::empty(),
                groups@[x],
            ) by {
            if x != gid {
                let i = choose|i: int|
                    0 <= i < before.len() && #[trigger] before[i].gid == x && (forall|j: int|
                        i < j < before.len() ==> before[j].gid != x) && group_loaded(
                        before[i],
                        Seq::empty(),
                        Seq::empty(),
                        groups@[x],
                    );
                assert(after[i] == before[i]);
            } else {
                assert(after[k].gid == x);
            }
        }
        assert forall|x: i64| groups@.contains_key(x) <==> exists|i: int|
            0 <= i < after.len() && #[trigger] after[i].gid == x by {
            if x != gid && groups@.contains_key(x) {
                let i = choose|i: int| 0 <= i < before.len() && #[trigger] before[i].gid == x;
                assert(after[i] == before[i]);
            }
            if exists|i: int| 0 <= i < after.len() && #[trigger] after[i].gid == x {
                let i = choose|i: int| 0 <= i < after.len() && #[trigger] after[i].gid == x;
                if i < k {
                    assert(before[i] == after[i]);
                }
            }
        }
    }
    assert(all.take(all.len() as int) =~= all);
    // the members
    let ghost g1 = groups@;
    let mut i: usize = 0;
    while i < rows.len()
        invariant
            i <= rows.len(),
            arows == rows@,
            groups@.dom() == g1.dom(),
            forall|gid: i64| #[trigger]
                groups@.contains_key(gid) ==> groups@[gid] == (CacheGroup {
                    members: groups@[gid].members,
                    ..g1[gid]
                }) && groups@[gid].members@ == group_members(rows@.take(i as int), gid),
        decreases rows.len() - i,
    {
        let (gid, uid) = rows[i];
        let ghost before = rows@.take(i as int);
        let ghost after = rows@.take(i + 1);
        assert(after =~= before.push((gid, uid)));
        assert forall|x: i64, y: i64| group_members(after, x).contains(y) <==> (group_members(
            before,
            x,
        ).contains(y) || (x == gid && y == uid)) by {
            if group_members(after, x).contains(y) {
                let a = choose|a: int| 0 <= a < after.len() && #[trigger] after[a] == (x, y);
                if a < i {
                    assert(before[a] == (x, y));
                }
            }
            if group_members(before, x).contains(y) {
                let a = choose|a: int| 0 <= a < before.len() && #[trigger] before[a] == (x, y);
                assert(after[a] == (x, y));
            }
            if x == gid && y == uid {
                assert(after[i as int] == (x, y));
            }
        }
        let ghost gb = groups@;
        match groups.remove(&gid) {
            Some(mut g) => {
                g.members.insert(uid);
                groups.insert(gid, g);
                assert(groups@.dom() =~= gb.dom());
                assert forall|x: i64| #[trigger] groups@.contains_key(x) implies groups@[x] == (
                CacheGroup { members: groups@[x].members, ..g1[x] }) && groups@[x].members@
                    == group_members(after, x) by {
                    assert(groups@[x].members@ =~= group_members(after, x));
                }
            },
            None => {
                assert(groups@ =~= gb);
                assert forall|x: i64| #[trigger] groups@.contains_key(x) implies groups@[x].members@
                    == group_members(after, x) by {
                    assert(group_members(after, x) =~= group_members(before, x));
                }
            },
        }
        i += 1;
    }
    assert(rows@.take(rows.len() as int) =~= rows@);
    // the announcements
    let ghost g2 = groups@;
    for a in it: anns.into_iter()
        invariant
            it.seq() == aanns,
            groups@.dom() == g2.dom(),
            forall|gid: i64| #[trigger]
                groups@.contains_key(gid) ==> groups@[gid] == (CacheGroup {
                    announcement: groups@[gid].announcement,
                    ..g2[gid]
                }) && groups@[gid].announcement == (match last_announcement(
                    aanns.take(it.index() as int),
                    gid,
                ) {
                    Some(x) => Some(x),
                    None => None,
                }),
    {
        let ghost k = it.index() as int;
        assert(aanns.take(k + 1).drop_last() =~= aanns.take(k));
        assert(aanns.take(k + 1).last() == a);
        let gid = a.gid;
        let ghost gb = groups@;
        match groups.remove(&gid) {
            Some(mut g) => {
                g.announcement = Some(a);
                groups.insert(gid, g);
                assert(groups@.dom() =~= gb.dom());
            },
            None => {
                assert(groups@ =~= gb);
            },
        }
    }
    assert(aanns.take(aanns.len() as int) =~= aanns);
    proof {
        assert forall|gid: i64| #![trigger groups@[gid]] groups@.contains_key(gid) implies exists|i: int|
            0 <= i < all.len() && #[trigger] all[i].gid == gid && (forall|j: int|
                i < j < all.len() ==> all[j].gid != gid) && group_loaded(
                all[i],
                arows,
                aanns,
                groups@[gid],
            ) by {
            assert(g1.contains_key(gid));
            let i = choose|i: int|
                0 <= i < all.len() && #[trigger] all[i].gid == gid && (forall|j: int|
                    i < j < all.len() ==> all[j].gid != gid) && group_loaded(
                    all[i],
                    Seq::empty(),
                    Seq::empty(),
                    g1[gid],
                );
            assert(group_loaded(all[i], arows, aanns, groups@[gid]));
        }
    }
    groups
}

} // verus!
