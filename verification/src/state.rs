//! The server's cached view of users and groups, and the rules read from it.

use crate::agent_convert::ChatMessageContent;
use crate::num::{format_u64, nat_text};
use crate::text::{push_chars, skip_until, skip_until_at, str_chars};
use std::collections::BTreeMap;
use std::collections::{BTreeSet, HashMap, HashSet};
use vstd::prelude::*;
use vstd::std_specs::cmp::OrdSpec;
use vstd::std_specs::iter::IteratorSpec;

verus! {

broadcast use vstd::std_specs::btree::group_btree_axioms;

/// Whether a group is public, or private with an owner.
#[derive(Debug, Copy, Clone, PartialEq, Eq)]
pub enum GroupType {
    Public,
    Private { owner: i64 },
}

impl GroupType {
    /// Whether the group is public.
    pub fn is_public(&self) -> (b: bool)
        ensures
            b == (*self is Public),
    {
        match self {
            GroupType::Public => true,
            GroupType::Private { .. } => false,
        }
    }

    /// The owner of a private group.
    pub fn owner(&self) -> (o: Option<i64>)
        ensures
            o == (match *self {
                GroupType::Public => None,
                GroupType::Private { owner } => Some(owner),
            }),
    {
        match self {
            GroupType::Public => None,
            GroupType::Private { owner } => Some(*owner),
        }
    }
}

/// A group as the API presents it. Times are milliseconds since the epoch.
#[derive(Debug, Clone)]
pub struct Group {
    pub gid: i64,
    pub owner: Option<i64>,
    pub name: String,
    pub description: Option<String>,
    pub members: Vec<i64>,
    pub is_public: bool,
    pub avatar_updated_at: i64,
    pub pinned_messages: Vec<PinnedMessage>,
    pub announcement: Option<GroupAnnouncement>,
}

/// A message pinned in a group. Times are milliseconds since the epoch.
#[derive(Debug, Clone)]
pub struct PinnedMessage {
    pub mid: i64,
    pub created_by: i64,
    pub created_at: i64,
    pub content: ChatMessageContent,
}

/// Two pinned messages are the same message with the same content.
pub open spec fn same_pinned(a: PinnedMessage, b: PinnedMessage) -> bool {
    a.mid == b.mid && a.created_by == b.created_by && a.created_at == b.created_at && a.content@
        == b.content@
}

/// Two lists of pinned messages hold the same messages in the same order.
pub open spec fn same_pinned_list(a: Seq<PinnedMessage>, b: Seq<PinnedMessage>) -> bool {
    a.len() == b.len() && forall|i: int| 0 <= i < a.len() ==> same_pinned(#[trigger] a[i], b[i])
}

impl PinnedMessage {
    /// A copy of the pinned message.
    pub fn duplicate(&self) -> (r: PinnedMessage)
        ensures
            same_pinned(r, *self),
    {
        PinnedMessage {
            mid: self.mid,
            created_by: self.created_by,
            created_at: self.created_at,
            content: self.content.duplicate(),
        }
    }
}

/// The announcement of a group. Times are milliseconds since the epoch.
#[derive(Debug, Clone)]
pub struct GroupAnnouncement {
    pub gid: i64,
    pub content: String,
    pub created_by: i64,
    pub created_at: i64,
    pub updated_at: i64,
}

impl GroupAnnouncement {
    /// A copy of the announcement.
    pub fn duplicate(&self) -> (r: GroupAnnouncement)
        ensures
            r == *self,
    {
        GroupAnnouncement {
            gid: self.gid,
            content: self.content.clone(),
            created_by: self.created_by,
            created_at: self.created_at,
            updated_at: self.updated_at,
        }
    }
}

/// A copy of a list of pinned messages.
pub fn copy_pinned(v: &Vec<PinnedMessage>) -> (r: Vec<PinnedMessage>)
    ensures
        same_pinned_list(r@, v@),
{
    let mut r: Vec<PinnedMessage> = Vec::new();
    let mut i: usize = 0;
    while i < v.len()
        invariant
            i <= v.len(),
            same_pinned_list(r@, v@.take(i as int)),
        decreases v.len() - i,
    {
        r.push(v[i].duplicate());
        i += 1;
    }
    assert(v@.take(v.len() as int) =~= v@);
    r
}

/// The keys a set iterator yields are strictly increasing.
proof fn lemma_increasing_keys(r: Seq<&i64>)
    requires
        vstd::std_specs::btree::increasing_seq(r),
    ensures
        forall|i: int, j: int| 0 <= i < j < r.len() ==> *r[i] < *r[j],
{
    broadcast use vstd::laws_cmp::group_laws_cmp;

    assert(vstd::laws_cmp::obeys_cmp::<i64>());
    assert(vstd::laws_cmp::obeys_cmp::<&i64>());
    vstd::std_specs::btree::axiom_increasing_seq_meaning(r);

    assert forall|i: int, j: int| 0 <= i < j < r.len() implies *r[i] < *r[j] by {
        assert(OrdSpec::cmp_spec(&r[i], &r[j]) is Less);
    }
}

/// The members of a set in increasing order.
pub fn member_list(set: &BTreeSet<i64>) -> (members: Vec<i64>)
    ensures
        members@.to_set() == set@,
        forall|i: int, j: int| 0 <= i < j < members@.len() ==> members@[i] < members@[j],
{
    let mut members: Vec<i64> = Vec::new();
    for m in it: set.iter()
        invariant
            members@ == it.seq().take(it.index() as int).map_values(|x: &i64| *x),
            it.seq() == vstd::std_specs::btree::spec_btree_keys_iter(set).remaining(),
        ensures
            members@ == vstd::std_specs::btree::spec_btree_keys_iter(set).remaining().unref(),
    {
        members.push(*m);
        assert(members@ =~= it.seq().take(it.index() + 1).map_values(|x: &i64| *x));
    }
    proof {
        lemma_increasing_keys(vstd::std_specs::btree::spec_btree_keys_iter(set).remaining());
    }
    members
}

/// The keys of a map in increasing order.
pub fn sorted_keys<V>(m: &BTreeMap<i64, V>) -> (keys: Vec<i64>)
    ensures
        keys@.to_set() == m@.dom(),
        keys@.len() == m@.dom().len(),
        forall|i: int, j: int| 0 <= i < j < keys@.len() ==> keys@[i] < keys@[j],
{
    let mut keys: Vec<i64> = Vec::new();
    for k in it: m.keys()
        invariant
            keys@ == it.seq().take(it.index() as int).map_values(|x: &i64| *x),
            it.seq() == vstd::std_specs::btree::spec_keys_iter(m).remaining(),
        ensures
            keys@ == vstd::std_specs::btree::spec_keys_iter(m).remaining().unref(),
    {
        keys.push(*k);
        assert(keys@ =~= it.seq().take(it.index() + 1).map_values(|x: &i64| *x));
    }
    proof {
        lemma_increasing_keys(vstd::std_specs::btree::spec_keys_iter(m).remaining());
    }
    keys
}

/// A cached group. Times are milliseconds since the epoch.
pub struct CacheGroup {
    pub ty: GroupType,
    pub name: String,
    pub description: String,
    pub members: BTreeSet<i64>,
    pub created_at: i64,
    pub updated_at: i64,
    pub avatar_updated_at: i64,
    pub pinned_messages: Vec<PinnedMessage>,
    pub announcement: Option<GroupAnnouncement>,
}

impl CacheGroup {
    /// Whether the user belongs to the group: every user belongs to a public group.
    pub fn contains_user(&self, uid: i64) -> (b: bool)
        ensures
            b == (self.ty is Public || self.members@.contains(uid)),
    {
        self.ty.is_public() || self.members.contains(&uid)
    }

    /// The description, `None` when it is empty.
    pub fn description_opt(&self) -> (d: Option<String>)
        ensures
            match d {
                Some(s) => s@ == self.description@ && self.description@.len() > 0,
                None => self.description@.len() == 0,
            },
    {
        if !self.description.as_str().is_empty() {
            Some(self.description.clone())
        } else {
            None
        }
    }

    /// The group as the API presents it, its members in increasing order.
    pub fn api_group(&self, gid: i64) -> (g: Group)
        ensures
            g.gid == gid,
            g.owner == (match self.ty {
                GroupType::Public => None,
                GroupType::Private { owner } => Some(owner),
            }),
            g.name@ == self.name@,
            g.description matches Some(d) ==> d@ == self.description@,
            g.description is None <==> self.description@.len() == 0,
            g.members@.to_set() == self.members@,
            forall|i: int, j: int| 0 <= i < j < g.members@.len() ==> g.members@[i] < g.members@[j],
            g.is_public == (self.ty is Public),
            g.avatar_updated_at == self.avatar_updated_at,
            same_pinned_list(g.pinned_messages@, self.pinned_messages@),
            g.announcement == self.announcement,
    {
        let members = member_list(&self.members);
        Group {
            gid,
            owner: self.ty.owner(),
            name: self.name.clone(),
            description: self.description_opt(),
            members,
            is_public: self.ty.is_public(),
            avatar_updated_at: self.avatar_updated_at,
            pinned_messages: copy_pinned(&self.pinned_messages),
            announcement: match &self.announcement {
                Some(a) => Some(a.duplicate()),
                None => None,
            },
        }
    }
}

/// Whether a user account may be used.
#[derive(Debug, Copy, Clone, PartialEq, Eq, Structural)]
pub enum UserStatus {
    Normal,
    Frozen,
}

impl UserStatus {
    /// The stored code of a status: 0 for normal, -1 for frozen.
    pub fn code(&self) -> (c: i8)
        ensures
            c == (if *self is Normal {
                0i8
            } else {
                -1i8
            }),
    {
        match self {
            UserStatus::Normal => 0,
            UserStatus::Frozen => -1,
        }
    }

    /// The status a stored code stands for; any code but 0 reads as frozen.
    pub fn from_code(c: i8) -> (s: UserStatus)
        ensures
            s == (if c == 0 {
                UserStatus::Normal
            } else {
                UserStatus::Frozen
            }),
    {
        if c == 0 {
            UserStatus::Normal
        } else {
            UserStatus::Frozen
        }
    }
}

/// An API key of a bot. Times are milliseconds since the epoch.
#[derive(Debug, Clone)]
pub struct BotKey {
    pub name: String,
    pub key: String,
    pub created_at: i64,
    pub last_used: Option<i64>,
}

/// A contact relation. Times are milliseconds since the epoch.
#[derive(Debug, Clone, Copy)]
pub struct CacheContactInfo {
    pub created_at: i64,
    pub updated_at: i64,
    pub status: i32,
}

/// A device of a user: its push token and whether an event stream is open.
#[derive(Debug, Clone)]
pub struct CacheDevice {
    pub device_token: Option<String>,
    pub connected: bool,
}

/// A cached user. Times are milliseconds since the epoch; mute expiries are
/// absent for a mute without end.
pub struct CacheUser {
    pub email: Option<String>,
    pub name: String,
    pub password: Option<String>,
    pub gender: i32,
    pub is_admin: bool,
    pub language: String,
    pub create_by: String,
    pub devices: Vec<(String, CacheDevice)>,
    pub mute_user: HashMap<i64, Option<i64>>,
    pub mute_group: HashMap<i64, Option<i64>>,
    pub burn_after_reading_user: HashMap<i64, i64>,
    pub burn_after_reading_group: HashMap<i64, i64>,
    /// The last message read in the conversation with each user.
    pub read_index_user: HashMap<i64, i64>,
    /// The last message read in each group.
    pub read_index_group: HashMap<i64, i64>,
    pub pinned_chat_user: HashSet<i64>,
    pub pinned_chat_group: HashSet<i64>,
    pub contacts: HashMap<i64, CacheContactInfo>,
    pub created_at: i64,
    pub updated_at: i64,
    pub avatar_updated_at: i64,
    pub status: UserStatus,
    pub is_guest: bool,
    pub webhook_url: Option<String>,
    pub is_bot: bool,
    pub bot_keys: HashMap<i64, BotKey>,
    /// Whether the bot is connected through the Matrix protocol.
    pub bot_online: bool,
}

/// Whether a mute entry mutes at `now`: a mute without end always does; one
/// with an expiry does when the expiry lies before `now`.
pub open spec fn mute_applies(entry: Option<Option<i64>>, now: i64) -> bool {
    match entry {
        Some(Some(expired_at)) => expired_at < now,
        Some(None) => true,
        None => false,
    }
}

impl CacheUser {
    /// Whether the user is online: a bot connected through Matrix, or a user
    /// with an open event stream on some device.
    pub fn is_online(&self) -> (b: bool)
        ensures
            b == ((self.is_bot && self.bot_online) || exists|i: int|
                0 <= i < self.devices@.len() && #[trigger] self.devices@[i].1.connected),
    {
        if self.is_bot && self.bot_online {
            return true;
        }
        let mut i: usize = 0;
        while i < self.devices.len()
            invariant
                i <= self.devices.len(),
                forall|j: int| 0 <= j < i ==> !(#[trigger] self.devices@[j].1.connected),
            decreases self.devices.len() - i,
        {
            if self.devices[i].1.connected {
                return true;
            }
            i += 1;
        }
        false
    }

    /// Whether messages to the user `uid` are muted at `now`.
    pub fn is_user_muted(&self, uid: i64, now: i64) -> (b: bool)
        ensures
            b == mute_applies(
                if self.mute_user@.contains_key(uid) {
                    Some(self.mute_user@[uid])
                } else {
                    None
                },
                now,
            ),
    {
        match self.mute_user.get(&uid) {
            Some(Some(expired_at)) => *expired_at < now,
            Some(None) => true,
            None => false,
        }
    }

    /// Whether messages to the group `gid` are muted at `now`.
    pub fn is_group_muted(&self, gid: i64, now: i64) -> (b: bool)
        ensures
            b == mute_applies(
                if self.mute_group@.contains_key(gid) {
                    Some(self.mute_group@[gid])
                } else {
                    None
                },
                now,
            ),
    {
        match self.mute_group.get(&gid) {
            Some(Some(expired_at)) => *expired_at < now,
            Some(None) => true,
            None => false,
        }
    }

    /// The burn-after-reading time of messages to the user `uid`.
    pub fn burn_after_reading_to_user_expires_in(&self, uid: i64) -> (r: Option<i64>)
        ensures
            r == (if self.burn_after_reading_user@.contains_key(uid) {
                Some(self.burn_after_reading_user@[uid])
            } else {
                None
            }),
    {
        match self.burn_after_reading_user.get(&uid) {
            Some(v) => Some(*v),
            None => None,
        }
    }

    /// The burn-after-reading time of messages to the group `gid`.
    pub fn burn_after_reading_to_group_expires_in(&self, gid: i64) -> (r: Option<i64>)
        ensures
            r == (if self.burn_after_reading_group@.contains_key(gid) {
                Some(self.burn_after_reading_group@[gid])
            } else {
                None
            }),
    {
        match self.burn_after_reading_group.get(&gid) {
            Some(v) => Some(*v),
            None => None,
        }
    }
}

/// Whether one of the bot keys has the name `name`.
pub open spec fn has_key_named(keys: Map<i64, BotKey>, name: Seq<char>) -> bool {
    exists|kid: i64| keys.contains_key(kid) && #[trigger] keys[kid].name@ == name
}

/// Whether one of the bot keys is the key `key`.
pub open spec fn has_key_text(keys: Map<i64, BotKey>, key: Seq<char>) -> bool {
    exists|kid: i64| keys.contains_key(kid) && #[trigger] keys[kid].key@ == key
}

impl CacheUser {
    /// Whether one of the user's bot keys has the name `name`.
    pub fn has_bot_key_named(&self, name: &str) -> (b: bool)
        ensures
            b == has_key_named(self.bot_keys@, name@),
    {
        broadcast use vstd::std_specs::hash::group_hash_axioms;

        for k in it: self.bot_keys.values()
            invariant
                it.seq() == vstd::std_specs::hash::spec_values_iter(&self.bot_keys).remaining(),
                forall|j: int| 0 <= j < it.index() ==> it.seq()[j].name@ != name@,
        {
            if crate::text::str_equal(k.name.as_str(), name) {
                proof {
                    let u = it.seq().unref();
                    assert(u[it.index()] == *it.seq()[it.index()]);
                    assert(u.to_set().contains(u[it.index()]));
                    assert(self.bot_keys@.values().contains(u[it.index()]));
                }
                return true;
            }
        }
        proof {
            let r = vstd::std_specs::hash::spec_values_iter(&self.bot_keys).remaining();
            let u = r.unref();
            assert forall|kid: i64| self.bot_keys@.contains_key(kid) implies #[trigger] self.bot_keys@[kid].name@ != name@ by {
                assert(self.bot_keys@.values().contains(self.bot_keys@[kid]));
                assert(u.to_set().contains(self.bot_keys@[kid]));
                let j = choose|j: int| 0 <= j < u.len() && u[j] == self.bot_keys@[kid];
                assert(*r[j] == u[j]);
            }
        }
        false
    }

    /// Whether one of the user's bot keys is `key`.
    pub fn has_bot_key(&self, key: &str) -> (b: bool)
        ensures
            b == has_key_text(self.bot_keys@, key@),
    {
        broadcast use vstd::std_specs::hash::group_hash_axioms;

        for k in it: self.bot_keys.values()
            invariant
                it.seq() == vstd::std_specs::hash::spec_values_iter(&self.bot_keys).remaining(),
                forall|j: int| 0 <= j < it.index() ==> it.seq()[j].key@ != key@,
        {
            if crate::text::str_equal(k.key.as_str(), key) {
                proof {
                    let u = it.seq().unref();
                    assert(u[it.index()] == *it.seq()[it.index()]);
                    assert(u.to_set().contains(u[it.index()]));
                    assert(self.bot_keys@.values().contains(u[it.index()]));
                }
                return true;
            }
        }
        proof {
            let r = vstd::std_specs::hash::spec_values_iter(&self.bot_keys).remaining();
            let u = r.unref();
            assert forall|kid: i64| self.bot_keys@.contains_key(kid) implies #[trigger] self.bot_keys@[kid].key@ != key@ by {
                assert(self.bot_keys@.values().contains(self.bot_keys@[kid]));
                assert(u.to_set().contains(self.bot_keys@[kid]));
                let j = choose|j: int| 0 <= j < u.len() && u[j] == self.bot_keys@[kid];
                assert(*r[j] == u[j]);
            }
        }
        false
    }
}

// ----- names -----

/// `c` with an ASCII capital letter made small.
pub open spec fn ascii_lower(c: char) -> char {
    if 'A' <= c <= 'Z' {
        ((c as u8) + 32) as char
    } else {
        c
    }
}

/// Whether two texts are equal ignoring ASCII case (`str::eq_ignore_ascii_case`).
pub open spec fn eq_ignore_case(a: Seq<char>, b: Seq<char>) -> bool {
    a.len() == b.len() && forall|i: int| 0 <= i < a.len() ==> ascii_lower(a[i]) == ascii_lower(b[i])
}

/// `c` with an ASCII capital letter made small.
fn to_ascii_lower(c: char) -> (r: char)
    ensures
        r == ascii_lower(c),
{
    if 'A' <= c && c <= 'Z' {
        ((c as u8) + 32) as char
    } else {
        c
    }
}

/// Whether two texts are equal ignoring ASCII case.
pub fn eq_ignore_ascii_case(a: &str, b: &str) -> (r: bool)
    ensures
        r == eq_ignore_case(a@, b@),
{
    let x = str_chars(a);
    let y = str_chars(b);
    if x.len() != y.len() {
        return false;
    }
    let mut i: usize = 0;
    while i < x.len()
        invariant
            x@ == a@,
            y@ == b@,
            x.len() == y.len(),
            i <= x.len(),
            forall|j: int| 0 <= j < i ==> ascii_lower(x@[j]) == ascii_lower(y@[j]),
        decreases x.len() - i,
    {
        if to_ascii_lower(x[i]) != to_ascii_lower(y[i]) {
            return false;
        }
        i += 1;
    }
    true
}

/// Whether some user's name equals `name` ignoring ASCII case.
pub open spec fn name_taken(users: Map<i64, CacheUser>, name: Seq<char>) -> bool {
    exists|uid: i64| users.contains_key(uid) && eq_ignore_case(#[trigger] users[uid].name@, name)
}

/// Whether some user's email equals `email` ignoring ASCII case.
pub open spec fn email_taken(users: Map<i64, CacheUser>, email: Seq<char>) -> bool {
    exists|uid: i64|
        users.contains_key(uid) && (#[trigger] users[uid].email matches Some(e) && eq_ignore_case(
            e@,
            email,
        ))
}

/// The candidate names `base` followed by a number in `lo..hi`.
pub open spec fn numbered(base: Seq<char>, n: nat) -> Seq<char> {
    base + nat_text(n)
}

/// Draws a number in `lo..hi` with `fastrand::u32`; nothing but the range is
/// known of it.
#[verifier::external_body]
fn random_u32(lo: u32, hi: u32) -> (r: u32)
    requires
        lo < hi,
    ensures
        lo <= r < hi,
{
    fastrand::u32(lo..hi)
}

/// The users and groups the server holds in memory.
pub struct Cache {
    pub groups: BTreeMap<i64, CacheGroup>,
    pub users: BTreeMap<i64, CacheUser>,
}

impl Cache {
    /// Whether `name` is free: no user has it, ignoring ASCII case.
    pub fn check_name_conflict(&self, name: &str) -> (free: bool)
        ensures
            free == !name_taken(self.users@, name@),
    {
        let ghost m = self.users@;
        for u in it: self.users.values()
            invariant
                m == self.users@,
                it.seq() == vstd::std_specs::btree::spec_values_iter(&self.users).remaining(),
                forall|j: int| 0 <= j < it.index() ==> !eq_ignore_case(it.seq()[j].name@, name@),
        {
            if eq_ignore_ascii_case(u.name.as_str(), name) {
                proof {
                    lemma_value_in_map(&self.users, it.index());
                }
                return false;
            }
        }
        proof {
            lemma_values_cover(&self.users);
        }
        true
    }

    /// Whether `email` is free: no user has it, ignoring ASCII case.
    pub fn check_email_conflict(&self, email: &str) -> (free: bool)
        ensures
            free == !email_taken(self.users@, email@),
    {
        let ghost m = self.users@;
        for u in it: self.users.values()
            invariant
                m == self.users@,
                it.seq() == vstd::std_specs::btree::spec_values_iter(&self.users).remaining(),
                forall|j: int|
                    0 <= j < it.index() ==> !(#[trigger] it.seq()[j].email matches Some(e) && eq_ignore_case(
                        e@,
                        email@,
                    )),
        {
            let matches = match &u.email {
                Some(e) => eq_ignore_ascii_case(e.as_str(), email),
                None => false,
            };
            if matches {
                proof {
                    lemma_value_in_map(&self.users, it.index());
                }
                return false;
            }
        }
        proof {
            lemma_values_cover(&self.users);
        }
        true
    }
}

/// A bot whose name is `name`, ignoring ASCII case.
pub open spec fn is_bot_named(u: CacheUser, name: Seq<char>) -> bool {
    u.is_bot && eq_ignore_case(u.name@, name)
}

/// A user whose email or name is `account`, ignoring ASCII case.
pub open spec fn is_account(u: CacheUser, account: Seq<char>) -> bool {
    (u.email matches Some(e) && eq_ignore_case(e@, account)) || eq_ignore_case(u.name@, account)
}

/// A user holding the bot key `token`.
pub open spec fn holds_key(u: CacheUser, token: Seq<char>) -> bool {
    has_key_text(u.bot_keys@, token)
}

/// `uid` is the smallest user id whose user satisfies `p`, or `None` when no
/// user does.
pub open spec fn first_user(users: Map<i64, CacheUser>, p: spec_fn(CacheUser) -> bool, r: Option<i64>) -> bool {
    match r {
        Some(uid) => users.contains_key(uid) && p(users[uid]) && forall|u: i64|
            #![trigger users[u]]
            users.contains_key(u) && u < uid ==> !p(users[u]),
        None => forall|u: i64| #![trigger users[u]] users.contains_key(u) ==> !p(users[u]),
    }
}

/// `r` is the smallest id of a bot named `name`, ignoring ASCII case, or
/// `None` when there is none.
pub open spec fn first_bot_named(users: Map<i64, CacheUser>, name: Seq<char>, r: Option<i64>) -> bool {
    first_user(users, |u: CacheUser| is_bot_named(u, name), r)
}

/// The keys a map iterator yields, as numbers.
pub open spec fn iter_keys(s: Seq<(&i64, &CacheUser)>) -> Seq<i64> {
    s.map_values(|kv: (&i64, &CacheUser)| *kv.0)
}

/// Keys yielded in increasing order are ordered as their positions.
proof fn lemma_increasing_keys_order(k: Seq<i64>)
    requires
        vstd::std_specs::btree::increasing_seq(k),
    ensures
        forall|i: int, j: int| 0 <= i < j < k.len() ==> k[i] < k[j],
{
    broadcast use vstd::laws_cmp::group_laws_cmp;

    assert(vstd::laws_cmp::obeys_cmp::<i64>());
    vstd::std_specs::btree::axiom_increasing_seq_meaning(k);
    assert forall|i: int, j: int| 0 <= i < j < k.len() implies k[i] < k[j] by {
        assert(OrdSpec::cmp_spec(&k[i], &k[j]) is Less);
    }
}

/// With the users yielded in increasing id order and none of the first
/// `idx` satisfying `p`, no user with a smaller id than the one at `idx`
/// satisfies `p`.
pub(crate) proof fn lemma_first_in_order(
    m: &BTreeMap<i64, CacheUser>,
    s: Seq<(&i64, &CacheUser)>,
    idx: int,
    p: spec_fn(CacheUser) -> bool,
)
    requires
        s == vstd::std_specs::btree::spec_btree_map_iter(m).remaining(),
        vstd::std_specs::btree::increasing_seq(iter_keys(s)),
        0 <= idx <= s.len(),
        forall|j: int| 0 <= j < idx ==> !p(*s[j].1),
    ensures
        forall|u: i64|
            #![trigger m@[u]]
            m@.contains_key(u) && (idx < s.len() ==> u < *s[idx].0) ==> !p(m@[u]),
{
    lemma_increasing_keys_order(iter_keys(s));
    assert forall|u: i64| #![trigger m@[u]] m@.contains_key(u) && (idx < s.len() ==> u < *s[idx].0) implies !p(m@[u]) by {
        assert(s.contains((&u, &m@[u])));
        let j = choose|j: int| 0 <= j < s.len() && s[j] == (&u, &m@[u]);
        if j >= idx {
            assert(iter_keys(s)[j] == u);
            if j > idx {
                assert(iter_keys(s)[idx] < iter_keys(s)[j]);
            }
        }
    }
}

impl Cache {
    /// The smallest id of a bot named `name`, ignoring ASCII case.
    pub fn find_bot_by_name(&self, name: &str) -> (r: Option<i64>)
        ensures
            first_bot_named(self.users@, name@, r),
    {
        let ghost p = |u: CacheUser| is_bot_named(u, name@);
        for kv in it: self.users.iter()
            invariant
                p == (|u: CacheUser| is_bot_named(u, name@)),
                it.seq() == vstd::std_specs::btree::spec_btree_map_iter(&self.users).remaining(),
                vstd::std_specs::btree::increasing_seq(iter_keys(it.seq())),
                forall|j: int| 0 <= j < it.index() ==> !p(*it.seq()[j].1),
        {
            let (uid, u) = kv;
            assert(kv == it.seq()[it.index()]);
            if u.is_bot && eq_ignore_ascii_case(u.name.as_str(), name) {
                proof {
                    lemma_first_in_order(&self.users, it.seq(), it.index(), p);
                    assert(self.users@.contains_key(*it.seq()[it.index()].0));
                }
                return Some(*uid);
            }
            assert(!p(*u));
        }
        proof {
            lemma_first_in_order(&self.users, vstd::std_specs::btree::spec_btree_map_iter(&self.users).remaining(), vstd::std_specs::btree::spec_btree_map_iter(&self.users).remaining().len() as int, p);
        }
        None
    }

    /// The smallest id of a user whose email or name is `account`, ignoring ASCII case.
    pub fn find_account(&self, account: &str) -> (r: Option<i64>)
        ensures
            first_user(self.users@, |u: CacheUser| is_account(u, account@), r),
    {
        let ghost p = |u: CacheUser| is_account(u, account@);
        for kv in it: self.users.iter()
            invariant
                p == (|u: CacheUser| is_account(u, account@)),
                it.seq() == vstd::std_specs::btree::spec_btree_map_iter(&self.users).remaining(),
                vstd::std_specs::btree::increasing_seq(iter_keys(it.seq())),
                forall|j: int| 0 <= j < it.index() ==> !p(*it.seq()[j].1),
        {
            let (uid, u) = kv;
            assert(kv == it.seq()[it.index()]);
            let email_matches = match &u.email {
                Some(e) => eq_ignore_ascii_case(e.as_str(), account),
                None => false,
            };
            if email_matches || eq_ignore_ascii_case(u.name.as_str(), account) {
                proof {
                    lemma_first_in_order(&self.users, it.seq(), it.index(), p);
                    assert(self.users@.contains_key(*it.seq()[it.index()].0));
                }
                return Some(*uid);
            }
            assert(!p(*u));
        }
        proof {
            lemma_first_in_order(&self.users, vstd::std_specs::btree::spec_btree_map_iter(&self.users).remaining(), vstd::std_specs::btree::spec_btree_map_iter(&self.users).remaining().len() as int, p);
        }
        None
    }

    /// The smallest id of a user holding the bot key `token`.
    pub fn find_user_by_bot_key(&self, token: &str) -> (r: Option<i64>)
        ensures
            first_user(self.users@, |u: CacheUser| holds_key(u, token@), r),
    {
        let ghost p = |u: CacheUser| holds_key(u, token@);
        for kv in it: self.users.iter()
            invariant
                p == (|u: CacheUser| holds_key(u, token@)),
                it.seq() == vstd::std_specs::btree::spec_btree_map_iter(&self.users).remaining(),
                vstd::std_specs::btree::increasing_seq(iter_keys(it.seq())),
                forall|j: int| 0 <= j < it.index() ==> !p(*it.seq()[j].1),
        {
            let (uid, u) = kv;
            assert(kv == it.seq()[it.index()]);
            if u.has_bot_key(token) {
                proof {
                    lemma_first_in_order(&self.users, it.seq(), it.index(), p);
                    assert(self.users@.contains_key(*it.seq()[it.index()].0));
                }
                return Some(*uid);
            }
            assert(!p(*u));
        }
        proof {
            lemma_first_in_order(&self.users, vstd::std_specs::btree::spec_btree_map_iter(&self.users).remaining(), vstd::std_specs::btree::spec_btree_map_iter(&self.users).remaining().len() as int, p);
        }
        None
    }
}

/// Random draws tried before the numbers of a range are tried in order.
pub const RANDOM_NAME_TRIES: u32 = 64;

/// The name `b` followed by the decimal text of `x`.
fn numbered_name(b: &Vec<char>, x: u32) -> (s: String)
    ensures
        s@ == numbered(b@, x as nat),
{
    let mut s = String::new();
    push_chars(&mut s, b, 0, b.len());
    let d = format_u64(x as u64);
    push_chars(&mut s, &d, 0, d.len());
    assert(b@.subrange(0, b@.len() as int) =~= b@);
    assert(d@.subrange(0, d@.len() as int) =~= d@);
    assert(Seq::<char>::empty() + b@ + d@ =~= numbered(b@, x as nat));
    s
}

/// What assigning a name from `base` may give: `base` itself when it is
/// free, else a free name `base<n>` with `n` in `lo..hi`; `None` only when all
/// of those are taken.
pub open spec fn assigned_from(
    users: Map<i64, CacheUser>,
    base: Seq<char>,
    lo: nat,
    hi: nat,
    r: Option<Seq<char>>,
) -> bool {
    if !name_taken(users, base) {
        r == Some(base)
    } else {
        match r {
            Some(n) => !name_taken(users, n) && exists|x: nat| lo <= x < hi && n == numbered(base, x),
            None => forall|x: nat| lo <= x < hi ==> #[trigger] name_taken(users, numbered(base, x)),
        }
    }
}

/// The part of an email before its first `@`, when that part is not empty;
/// else the whole email.
pub open spec fn email_name(email: Seq<char>) -> Seq<char> {
    let at = skip_until(email, 0, '@');
    if 0 < at < email.len() {
        email.take(at)
    } else {
        email
    }
}

impl Cache {
    /// A free name `base` followed by a number in `lo..hi`: a few random draws
    /// first, then every number in order.
    fn free_numbered_name(&self, base: &Vec<char>, lo: u32, hi: u32) -> (r: Option<String>)
        requires
            lo < hi,
        ensures
            match r {
                Some(n) => !name_taken(self.users@, n@) && exists|x: nat|
                    lo <= x < hi && n@ == numbered(base@, x),
                None => forall|x: nat|
                    lo <= x < hi ==> #[trigger] name_taken(self.users@, numbered(base@, x)),
            },
    {
        let mut tries: u32 = 0;
        while tries < RANDOM_NAME_TRIES
            invariant
                lo < hi,
            decreases RANDOM_NAME_TRIES - tries,
        {
            let x = random_u32(lo, hi);
            let cand = numbered_name(base, x);
            if self.check_name_conflict(cand.as_str()) {
                assert(lo <= x as nat && (x as nat) < hi);
                return Some(cand);
            }
            tries += 1;
        }
        let mut x = lo;
        while x < hi
            invariant
                lo <= x <= hi,
                forall|y: nat| lo <= y < x ==> #[trigger] name_taken(self.users@, numbered(base@, y)),
            decreases hi - x,
        {
            let cand = numbered_name(base, x);
            if self.check_name_conflict(cand.as_str()) {
                assert(lo <= x as nat && (x as nat) < hi);
                return Some(cand);
            }
            assert(name_taken(self.users@, numbered(base@, x as nat)));
            x += 1;
        }
        None
    }

    /// A free name made from `name`.
    fn assign_username_by_name(&self, name: &Vec<char>) -> (r: Option<String>)
        ensures
            assigned_from(
                self.users@,
                name@,
                1111,
                9999,
                match r {
                    Some(n) => Some(n@),
                    None => None,
                },
            ),
    {
        let whole = numbered_prefix(name);
        if self.check_name_conflict(whole.as_str()) {
            return Some(whole);
        }
        self.free_numbered_name(name, 1111, 9999)
    }

    /// A free name made from the part of `email` before its `@`.
    fn assign_username_by_email(&self, email: &Vec<char>) -> (r: Option<String>)
        ensures
            assigned_from(
                self.users@,
                email_name(email@),
                1111,
                9999,
                match r {
                    Some(n) => Some(n@),
                    None => None,
                },
            ),
    {
        let at = skip_until_at(email, 0, '@');
        if 0 < at && at < email.len() {
            let base = crate::text::sub_chars(email, 0, at);
            assert(base@ =~= email@.take(at as int));
            self.assign_username_by_name(&base)
        } else {
            self.assign_username_by_name(email)
        }
    }

    /// Assigns a free user name: from the name asked for, else from the email,
    /// else `User<n>` with `n` in `111111..999999`. `None` only when every
    /// candidate is taken.
    pub fn assign_username(&self, name: Option<&str>, email: Option<&str>) -> (r: Option<String>)
        ensures
            match name {
                Some(n) => assigned_from(
                    self.users@,
                    n@,
                    1111,
                    9999,
                    match r {
                        Some(x) => Some(x@),
                        None => None,
                    },
                ),
                None => match email {
                    Some(e) => assigned_from(
                        self.users@,
                        email_name(e@),
                        1111,
                        9999,
                        match r {
                            Some(x) => Some(x@),
                            None => None,
                        },
                    ),
                    None => match r {
                        Some(x) => !name_taken(self.users@, x@) && exists|k: nat|
                            111111 <= k < 999999 && x@ == numbered("User"@, k),
                        None => forall|k: nat|
                            111111 <= k < 999999 ==> #[trigger] name_taken(
                                self.users@,
                                numbered("User"@, k),
                            ),
                    },
                },
            },
    {
        if let Some(n) = name {
            self.assign_username_by_name(&str_chars(n))
        } else if let Some(e) = email {
            self.assign_username_by_email(&str_chars(e))
        } else {
            self.free_numbered_name(&str_chars("User"), 111111, 999999)
        }
    }
}

/// The string made of all of `v`.
fn numbered_prefix(v: &Vec<char>) -> (s: String)
    ensures
        s@ == v@,
{
    assert(v@.subrange(0, v@.len() as int) =~= v@);
    crate::text::chars_string(v, 0, v.len())
}

/// Each value the iterator of a map's values yields is the value of some key.
proof fn lemma_value_in_map(m: &BTreeMap<i64, CacheUser>, j: int)
    requires
        0 <= j < vstd::std_specs::btree::spec_values_iter(m).remaining().len(),
    ensures
        exists|uid: i64|
            m@.contains_key(uid) && #[trigger] m@[uid] == *vstd::std_specs::btree::spec_values_iter(
                m,
            ).remaining()[j],
{
    let r = vstd::std_specs::btree::spec_values_iter(m).remaining();
    let u = r.unref();
    assert(u[j] == *r[j]);
    assert(u.to_set().contains(u[j]));
    assert(m@.values().contains(u[j]));
}

/// Every key's value is yielded by the iterator of a map's values.
proof fn lemma_values_cover(m: &BTreeMap<i64, CacheUser>)
    ensures
        forall|uid: i64|
            #![trigger m@[uid]]
            m@.contains_key(uid) ==> exists|j: int|
                0 <= j < vstd::std_specs::btree::spec_values_iter(m).remaining().len()
                    && *vstd::std_specs::btree::spec_values_iter(m).remaining()[j] == m@[uid],
{
    let r = vstd::std_specs::btree::spec_values_iter(m).remaining();
    let u = r.unref();
    assert(u.to_set() == m@.values());
    assert forall|uid: i64| m@.contains_key(uid) implies exists|j: int|
        0 <= j < r.len() && *r[j] == m@[uid] by {
        assert(m@.values().contains(m@[uid]));
        assert(u.to_set().contains(m@[uid]));
        let j = choose|j: int| 0 <= j < u.len() && u[j] == m@[uid];
        assert(*r[j] == u[j]);
    }
}

// ----- settings stored in the database -----

/// A setting stored by name in the database, and what it makes for the
/// running server.
pub trait DynamicConfig: Sized {
    /// What the running server keeps of the setting.
    type Instance;

    /// The name the setting is stored under.
    fn name() -> &'static str;

    /// What the running server keeps of the setting, under the configuration `config`.
    fn create_instance(self, config: &crate::config::Config) -> Self::Instance;
}

/// A stored setting and whether it is enabled.
pub struct DynamicConfigEntry<T: DynamicConfig> {
    pub enabled: bool,
    pub config: T,
}

} // verus!
