//! User administration: the rules of updating users and managing bot keys.

use crate::state::{
    eq_ignore_case, email_taken, has_key_named, name_taken, BotKey, Cache, CacheDevice, CacheUser,
    UserStatus,
};
use crate::text::{append_str, push_chars, str_chars};
use std::collections::HashMap;
use vstd::prelude::*;
use vstd::std_specs::iter::IteratorSpec;

verus! {

/// The user administration endpoints.
pub struct ApiAdminUser;

/// A device of a user as the API presents it.
#[derive(Debug, Clone)]
pub struct UserDevice {
    pub device: String,
    pub device_token: Option<String>,
    pub is_online: bool,
}

/// A user as the administration API presents it; the password is never
/// given out. Times are milliseconds since the epoch.
#[derive(Debug, Clone)]
pub struct User {
    pub uid: i64,
    pub email: Option<String>,
    pub password: String,
    pub name: String,
    pub gender: i32,
    pub is_admin: bool,
    pub language: String,
    pub create_by: String,
    pub in_online: bool,
    pub online_devices: Vec<UserDevice>,
    pub created_at: i64,
    pub updated_at: i64,
    pub avatar_updated_at: i64,
    pub status: UserStatus,
    pub webhook_url: Option<String>,
    pub is_bot: bool,
}

/// A request to update a user: each field present is changed.
#[derive(Debug, Clone, Default)]
pub struct UpdateUserRequest {
    pub email: Option<String>,
    pub password: Option<String>,
    pub name: Option<String>,
    pub gender: Option<i32>,
    pub is_admin: Option<bool>,
    pub is_bot: Option<bool>,
    pub language: Option<String>,
    pub status: Option<UserStatus>,
    pub webhook_url: Option<String>,
}

/// A request to create a bot API key.
#[derive(Debug, Clone)]
pub struct CreateBotApiKeyRequest {
    pub name: String,
}

/// A request to delete a bot API key.
#[derive(Debug, Clone)]
pub struct DeleteBotApiKeyRequest {
    pub uid: i64,
}

/// The answer to deleting a bot API key.
#[derive(Debug, Clone, Copy, PartialEq, Eq)]
pub enum DeleteBotApiKeyResponse {
    /// The key was deleted.
    Deleted,
    KeyNotFound,
}

/// A bot API key as the API presents it. Times are milliseconds since the epoch.
#[derive(Debug, Clone)]
pub struct BotKeyInfo {
    pub id: i64,
    pub name: String,
    pub key: String,
    pub created_at: i64,
    pub last_used: Option<i64>,
}

impl UpdateUserRequest {
    /// Whether the request changes nothing.
    pub fn is_empty(&self) -> (b: bool)
        ensures
            b == (self.email is None && self.password is None && self.name is None
                && self.gender is None && self.is_admin is None && self.is_bot is None
                && self.language is None && self.status is None && self.webhook_url is None),
    {
        self.email.is_none() && self.password.is_none() && self.name.is_none()
            && self.gender.is_none() && self.is_admin.is_none() && self.is_bot.is_none()
            && self.language.is_none() && self.status.is_none() && self.webhook_url.is_none()
    }

    /// Whether the request touches a field only an administrator may change.
    pub fn has_admin_fields(&self) -> (b: bool)
        ensures
            b == (self.email is Some || self.gender is Some || self.is_admin is Some
                || self.is_bot is Some || self.language is Some || self.status is Some),
    {
        self.email.is_some() || self.gender.is_some() || self.is_admin.is_some()
            || self.is_bot.is_some() || self.language.is_some() || self.status.is_some()
    }
}

/// Why an update or deletion of a user was refused.
#[derive(Debug, Clone, Copy, PartialEq, Eq)]
pub enum UserAdminError {
    /// The request changes nothing.
    BadRequest,
    Forbidden,
    NotFound,
    NameConflict,
    EmailConflict,
}

/// Who may update: an administrator anyone, a user only their own name,
/// password and webhook.
pub open spec fn update_allowed(
    req: UpdateUserRequest,
    token_uid: i64,
    token_is_admin: bool,
    uid: i64,
) -> Result<(), UserAdminError> {
    let has_admin_fields = req.email is Some || req.gender is Some || req.is_admin is Some
        || req.is_bot is Some || req.language is Some || req.status is Some;
    if req.email is None && req.password is None && req.name is None && req.gender is None
        && req.is_admin is None && req.is_bot is None && req.language is None && req.status is None
        && req.webhook_url is None {
        Err(UserAdminError::BadRequest)
    } else if !token_is_admin && token_uid != uid {
        Err(UserAdminError::Forbidden)
    } else if token_uid == uid && !token_is_admin && has_admin_fields {
        Err(UserAdminError::Forbidden)
    } else {
        Ok(())
    }
}

impl ApiAdminUser {
    /// Checks that the holder of a token may make the update of user `uid`.
    pub fn authorize_update(
        req: &UpdateUserRequest,
        token_uid: i64,
        token_is_admin: bool,
        uid: i64,
    ) -> (r: Result<(), UserAdminError>)
        ensures
            r == update_allowed(*req, token_uid, token_is_admin, uid),
    {
        if req.is_empty() {
            return Err(UserAdminError::BadRequest);
        }
        let is_self_update = token_uid == uid;
        if !token_is_admin && !is_self_update {
            return Err(UserAdminError::Forbidden);
        }
        if is_self_update && !token_is_admin && req.has_admin_fields() {
            return Err(UserAdminError::Forbidden);
        }
        Ok(())
    }

    /// Checks that an administrator may delete user `uid`: not oneself and
    /// not the founder (user 1).
    pub fn authorize_delete(token_uid: i64, token_is_admin: bool, uid: i64) -> (r: Result<
        (),
        UserAdminError,
    >)
        ensures
            r == (if !token_is_admin || uid == token_uid || uid == 1 {
                Err::<(), UserAdminError>(UserAdminError::Forbidden)
            } else {
                Ok(())
            }),
    {
        if !token_is_admin || uid == token_uid || uid == 1 {
            Err(UserAdminError::Forbidden)
        } else {
            Ok(())
        }
    }
}

/// The conflicts an update meets: the user must exist, a new email must be
/// free unless it is the user's own, a new name must be free unless it is the
/// user's own ignoring ASCII case.
pub open spec fn update_conflict(users: Map<i64, CacheUser>, uid: i64, req: UpdateUserRequest) -> Result<
    (),
    UserAdminError,
> {
    if !users.contains_key(uid) {
        Err(UserAdminError::NotFound)
    } else if req.email matches Some(e) && !(users[uid].email matches Some(cur) && cur@ == e@)
        && email_taken(users, e@) {
        Err(UserAdminError::EmailConflict)
    } else if req.name matches Some(n) && !eq_ignore_case(users[uid].name@, n@) && name_taken(
        users,
        n@,
    ) {
        Err(UserAdminError::NameConflict)
    } else {
        Ok(())
    }
}

impl Cache {
    /// Checks the update of user `uid` against the other users.
    pub fn check_update_conflicts(&self, uid: i64, req: &UpdateUserRequest) -> (r: Result<
        (),
        UserAdminError,
    >)
        ensures
            r == update_conflict(self.users@, uid, *req),
    {
        let user = match self.users.get(&uid) {
            Some(u) => u,
            None => return Err(UserAdminError::NotFound),
        };
        if let Some(email) = &req.email {
            let same = match &user.email {
                Some(cur) => crate::text::str_equal(cur.as_str(), email.as_str()),
                None => false,
            };
            if !same && !self.check_email_conflict(email.as_str()) {
                return Err(UserAdminError::EmailConflict);
            }
        }
        if let Some(name) = &req.name {
            if !crate::state::eq_ignore_ascii_case(user.name.as_str(), name.as_str())
                && !self.check_name_conflict(name.as_str()) {
                return Err(UserAdminError::NameConflict);
            }
        }
        Ok(())
    }
}

/// Which optional columns an update sets, in column order.
pub open spec fn column_flags(req: UpdateUserRequest) -> Seq<bool> {
    seq![
        req.password is Some,
        req.email is Some,
        req.name is Some,
        req.gender is Some,
        req.language is Some,
        req.is_admin is Some,
        req.is_bot is Some,
        req.status is Some,
        req.webhook_url is Some,
    ]
}

/// The assignments of the optional columns, in column order.
pub open spec fn column_assignments() -> Seq<Seq<char>> {
    seq![
        "password = ?"@,
        "email = ?"@,
        "name = ?"@,
        "gender = ?"@,
        "language = ?"@,
        "is_admin = ?"@,
        "is_bot = ?"@,
        "status = ?"@,
        "webhook_url = ?"@,
    ]
}

/// The items of `items` whose flag is set, in order.
pub open spec fn selected(flags: Seq<bool>, items: Seq<Seq<char>>) -> Seq<Seq<char>>
    decreases flags.len(),
{
    if flags.len() == 0 {
        Seq::empty()
    } else {
        selected(flags.drop_last(), items) + (if flags.last() {
            seq![items[flags.len() - 1]]
        } else {
            Seq::empty()
        })
    }
}

/// The assignments of an update statement: the changed columns, then the
/// update time.
pub open spec fn update_columns(req: UpdateUserRequest) -> Seq<Seq<char>> {
    selected(column_flags(req), column_assignments()).push("updated_at = ?"@)
}

/// Texts joined with `, `.
pub open spec fn join_comma(parts: Seq<Seq<char>>) -> Seq<char>
    decreases parts.len(),
{
    if parts.len() == 0 {
        Seq::empty()
    } else if parts.len() == 1 {
        parts[0]
    } else {
        join_comma(parts.drop_last()) + ", "@ + parts.last()
    }
}

/// Adds a column to a `, `-separated list.
fn add_column(out: &mut String, cols: Ghost<Seq<Seq<char>>>, first: bool, col: &str)
    requires
        old(out)@ == join_comma(cols@),
        first == (cols@.len() == 0),
    ensures
        final(out)@ == join_comma(cols@.push(col@)),
{
    assert(cols@.push(col@).drop_last() =~= cols@);
    if first {
        assert(old(out)@ =~= Seq::<char>::empty());
        append_str(out, col);
        assert(final(out)@ =~= col@);
    } else {
        append_str(out, ", ");
        append_str(out, col);
        assert(final(out)@ =~= join_comma(cols@) + ", "@ + col@);
    }
}

/// The statement updating the user table for a request: the changed columns
/// and the update time, then the user.
#[verifier::rlimit(30)]
pub fn update_user_sql(req: &UpdateUserRequest) -> (sql: String)
    ensures
        sql@ == "update user set "@ + join_comma(update_columns(*req)) + " where uid = ?"@,
{
    let mut flags: Vec<bool> = Vec::new();
    flags.push(req.password.is_some());
    flags.push(req.email.is_some());
    flags.push(req.name.is_some());
    flags.push(req.gender.is_some());
    flags.push(req.language.is_some());
    flags.push(req.is_admin.is_some());
    flags.push(req.is_bot.is_some());
    flags.push(req.status.is_some());
    flags.push(req.webhook_url.is_some());
    assert(flags@ =~= column_flags(*req));
    let mut names: Vec<&str> = Vec::new();
    names.push("password = ?");
    names.push("email = ?");
    names.push("name = ?");
    names.push("gender = ?");
    names.push("language = ?");
    names.push("is_admin = ?");
    names.push("is_bot = ?");
    names.push("status = ?");
    names.push("webhook_url = ?");
    assert(names@.map_values(|x: &str| x@) =~= column_assignments());
    let ghost items = column_assignments();
    let mut cols = String::new();
    let mut first = true;
    let mut i: usize = 0;
    while i < flags.len()
        invariant
            i <= flags.len() == names.len() == 9,
            flags@ == column_flags(*req),
            names@.map_values(|x: &str| x@) == items,
            items == column_assignments(),
            cols@ == join_comma(selected(flags@.take(i as int), items)),
            first == (selected(flags@.take(i as int), items).len() == 0),
        decreases flags.len() - i,
    {
        let ghost prev = selected(flags@.take(i as int), items);
        assert(flags@.take(i + 1).drop_last() =~= flags@.take(i as int));
        if flags[i] {
            assert(names@[i as int]@ == items[i as int]);
            add_column(&mut cols, Ghost(prev), first, names[i]);
            first = false;
            assert(prev + seq![items[i as int]] =~= prev.push(items[i as int]));
        } else {
            assert(prev + Seq::<Seq<char>>::empty() =~= prev);
        }
        i += 1;
        assert(selected(flags@.take(i as int), items) =~= prev + (if flags@[i - 1] {
            seq![items[i - 1]]
        } else {
            Seq::empty()
        }));
    }
    assert(flags@.take(9) =~= flags@);
    let ghost before = selected(flags@, items);
    add_column(&mut cols, Ghost(before), first, "updated_at = ?");
    let mut sql = "update user set ".to_owned();
    append_str(&mut sql, cols.as_str());
    append_str(&mut sql, " where uid = ?");
    sql
}

/// The devices with their event streams closed.
pub open spec fn closed_devices(d: Seq<(String, CacheDevice)>) -> Seq<(String, CacheDevice)> {
    d.map_values(
        |e: (String, CacheDevice)|
            (e.0, CacheDevice { device_token: e.1.device_token, connected: false }),
    )
}

/// A cached user with the fields of an update changed, the password to its hash.
pub open spec fn updated_user(u: CacheUser, req: UpdateUserRequest, hashed_password: Option<String>) -> CacheUser {
    CacheUser {
        email: match req.email {
            Some(e) => Some(e),
            None => u.email,
        },
        name: match req.name {
            Some(n) => n,
            None => u.name,
        },
        password: match hashed_password {
            Some(h) => Some(h),
            None => u.password,
        },
        gender: match req.gender {
            Some(g) => g,
            None => u.gender,
        },
        language: match req.language {
            Some(l) => l,
            None => u.language,
        },
        is_admin: match req.is_admin {
            Some(a) => a,
            None => u.is_admin,
        },
        is_bot: match req.is_bot {
            Some(b) => b,
            None => u.is_bot,
        },
        status: match req.status {
            Some(s) => s,
            None => u.status,
        },
        webhook_url: match req.webhook_url {
            Some(w) => Some(w),
            None => u.webhook_url,
        },
        ..u
    }
}

impl CacheUser {
    /// Applies an update to the cached user: each field present is changed,
    /// the password to its hash; a frozen user's event streams are closed.
    pub fn apply_update(&mut self, req: &UpdateUserRequest, hashed_password: Option<String>)
        requires
            req.password is Some <==> hashed_password is Some,
        ensures
            (CacheUser { devices: old(self).devices, ..*final(self) }) == updated_user(
                *old(self),
                *req,
                hashed_password,
            ),
            final(self).devices@ == (if req.status == Some(UserStatus::Frozen) {
                closed_devices(old(self).devices@)
            } else {
                old(self).devices@
            }),
    {
        if let Some(email) = &req.email {
            self.email = Some(email.clone());
        }
        if let Some(name) = &req.name {
            self.name = name.clone();
        }
        if let Some(h) = hashed_password {
            self.password = Some(h);
        }
        if let Some(language) = &req.language {
            self.language = language.clone();
        }
        if let Some(webhook_url) = &req.webhook_url {
            self.webhook_url = Some(webhook_url.clone());
        }
        self.apply_settings(req);
        let frozen = match req.status {
            Some(UserStatus::Frozen) => true,
            _ => false,
        };
        if frozen {
            close_devices(&mut self.devices);
        }
    }

    /// Applies the gender, admin, bot and status fields of an update.
    fn apply_settings(&mut self, req: &UpdateUserRequest)
        ensures
            *final(self) == (CacheUser {
                gender: match req.gender {
                    Some(g) => g,
                    None => old(self).gender,
                },
                is_admin: match req.is_admin {
                    Some(a) => a,
                    None => old(self).is_admin,
                },
                is_bot: match req.is_bot {
                    Some(b) => b,
                    None => old(self).is_bot,
                },
                status: match req.status {
                    Some(s) => s,
                    None => old(self).status,
                },
                ..*old(self)
            }),
    {
        if let Some(gender) = req.gender {
            self.gender = gender;
        }
        if let Some(is_admin) = req.is_admin {
            self.is_admin = is_admin;
        }
        if let Some(is_bot) = req.is_bot {
            self.is_bot = is_bot;
        }
        if let Some(status) = req.status {
            self.status = status;
        }
    }
}

/// Closes the event streams of all devices.
fn close_devices(devices: &mut Vec<(String, CacheDevice)>)
    ensures
        final(devices)@ == closed_devices(old(devices)@),
{
    let ghost before = devices@;
    let mut i: usize = 0;
    while i < devices.len()
        invariant
            i <= devices.len(),
            devices@.len() == before.len(),
            forall|j: int|
                0 <= j < before.len() ==> {
                    &&& (#[trigger] devices@[j]).0 == before[j].0
                    &&& devices@[j].1.device_token == before[j].1.device_token
                    &&& (j < i ==> !devices@[j].1.connected)
                    &&& (j >= i ==> devices@[j] == before[j])
                },
        decreases devices.len() - i,
    {
        let name = devices[i].0.clone();
        let token = match &devices[i].1.device_token {
            Some(t) => Some(t.clone()),
            None => None,
        };
        devices.set(i, (name, CacheDevice { device_token: token, connected: false }));
        i += 1;
    }
    assert(devices@ =~= closed_devices(before));
}

// ----- presenting users -----

/// A user's public profile. Times are milliseconds since the epoch.
#[derive(Debug, Clone)]
pub struct UserInfo {
    pub uid: i64,
    pub email: Option<String>,
    pub name: String,
    pub gender: i32,
    pub language: String,
    pub is_admin: bool,
    pub is_bot: bool,
    pub avatar_updated_at: i64,
    pub create_by: String,
    pub msg_smtp_notify_enable: bool,
    /// The birthday as a date text, when one is known.
    pub birthday: Option<String>,
}

/// `d` presents the cached device `e`.
pub open spec fn presents_device(e: (String, CacheDevice), d: UserDevice) -> bool {
    d.device == e.0 && d.device_token == e.1.device_token && d.is_online == e.1.connected
}

/// A copy of an optional text.
fn copy_opt(t: &Option<String>) -> (r: Option<String>)
    ensures
        r == *t,
{
    match t {
        Some(s) => Some(s.clone()),
        None => None,
    }
}

impl CacheUser {
    /// The profile of the user `uid`: never subscribed to mail notification,
    /// no birthday.
    pub fn api_user_info(&self, uid: i64) -> (i: UserInfo)
        ensures
            i.uid == uid,
            i.email == self.email,
            i.name == self.name,
            i.gender == self.gender,
            i.language == self.language,
            i.is_admin == self.is_admin,
            i.is_bot == self.is_bot,
            i.avatar_updated_at == self.avatar_updated_at,
            i.create_by == self.create_by,
            !i.msg_smtp_notify_enable,
            i.birthday is None,
    {
        UserInfo {
            uid,
            email: copy_opt(&self.email),
            name: self.name.clone(),
            gender: self.gender,
            language: self.language.clone(),
            is_admin: self.is_admin,
            is_bot: self.is_bot,
            avatar_updated_at: self.avatar_updated_at,
            create_by: self.create_by.clone(),
            msg_smtp_notify_enable: false,
            birthday: None,
        }
    }

    /// The user `uid` as the administration API presents it: an empty
    /// password, whether it is online, and each device with whether its
    /// event stream is open.
    pub fn api_user(&self, uid: i64) -> (u: User)
        ensures
            u.uid == uid,
            u.email == self.email,
            u.password@ == Seq::<char>::empty(),
            u.name == self.name,
            u.gender == self.gender,
            u.is_admin == self.is_admin,
            u.language == self.language,
            u.create_by == self.create_by,
            u.in_online == ((self.is_bot && self.bot_online) || exists|i: int|
                0 <= i < self.devices@.len() && #[trigger] self.devices@[i].1.connected),
            u.online_devices@.len() == self.devices@.len(),
            forall|i: int|
                0 <= i < self.devices@.len() ==> presents_device(
                    #[trigger] self.devices@[i],
                    u.online_devices@[i],
                ),
            u.created_at == self.created_at,
            u.updated_at == self.updated_at,
            u.avatar_updated_at == self.avatar_updated_at,
            u.status == self.status,
            u.webhook_url == self.webhook_url,
            u.is_bot == self.is_bot,
    {
        let mut devices: Vec<UserDevice> = Vec::new();
        let mut i: usize = 0;
        while i < self.devices.len()
            invariant
                i <= self.devices.len(),
                devices@.len() == i,
                forall|j: int|
                    0 <= j < i ==> presents_device(#[trigger] self.devices@[j], devices@[j]),
            decreases self.devices.len() - i,
        {
            let e = &self.devices[i];
            devices.push(
                UserDevice {
                    device: e.0.clone(),
                    device_token: copy_opt(&e.1.device_token),
                    is_online: e.1.connected,
                },
            );
            i += 1;
        }
        User {
            uid,
            email: copy_opt(&self.email),
            password: String::new(),
            name: self.name.clone(),
            gender: self.gender,
            is_admin: self.is_admin,
            language: self.language.clone(),
            create_by: self.create_by.clone(),
            in_online: self.is_online(),
            online_devices: devices,
            created_at: self.created_at,
            updated_at: self.updated_at,
            avatar_updated_at: self.avatar_updated_at,
            status: self.status,
            webhook_url: copy_opt(&self.webhook_url),
            is_bot: self.is_bot,
        }
    }

    /// The user's bot keys, each once, in the map's order.
    pub fn bot_key_infos(&self) -> (r: Vec<BotKeyInfo>)
        ensures
            r@.len() == self.bot_keys@.dom().len(),
            forall|i: int, j: int| 0 <= i < j < r@.len() ==> r@[i].id != r@[j].id,
            forall|i: int|
                0 <= i < r@.len() ==> {
                    let k = self.bot_keys@[(#[trigger] r@[i]).id];
                    &&& self.bot_keys@.contains_key(r@[i].id)
                    &&& r@[i].name == k.name
                    &&& r@[i].key == k.key
                    &&& r@[i].created_at == k.created_at
                    &&& r@[i].last_used == k.last_used
                },
    {
        broadcast use vstd::std_specs::hash::group_hash_axioms;

        let mut ids: Vec<i64> = Vec::new();
        for k in it: self.bot_keys.keys()
            invariant
                it.seq() == vstd::std_specs::hash::spec_keys_iter(&self.bot_keys).remaining(),
                ids@ == it.seq().take(it.index() as int).unref(),
            ensures
                ids@ == vstd::std_specs::hash::spec_keys_iter(&self.bot_keys).remaining().unref(),
        {
            ids.push(*k);
            assert(ids@ =~= it.seq().take(it.index() + 1).unref());
        }
        proof {
            let s = vstd::std_specs::hash::spec_keys_iter(&self.bot_keys).remaining();
            assert forall|a: int, b: int| 0 <= a < b < ids@.len() implies ids@[a] != ids@[b] by {
                assert(s[a] != s[b]);
            }
        }
        let mut r: Vec<BotKeyInfo> = Vec::new();
        let mut i: usize = 0;
        while i < ids.len()
            invariant
                i <= ids.len(),
                ids@.to_set() == self.bot_keys@.dom(),
                forall|a: int, b: int| 0 <= a < b < ids@.len() ==> ids@[a] != ids@[b],
                r@.len() == i,
                forall|a: int|
                    0 <= a < i ==> {
                        let k = self.bot_keys@[(#[trigger] r@[a]).id];
                        &&& r@[a].id == ids@[a]
                        &&& self.bot_keys@.contains_key(r@[a].id)
                        &&& r@[a].name == k.name
                        &&& r@[a].key == k.key
                        &&& r@[a].created_at == k.created_at
                        &&& r@[a].last_used == k.last_used
                    },
            decreases ids.len() - i,
        {
            let kid = ids[i];
            assert(ids@.to_set().contains(kid));
            let k = self.bot_keys.get(&kid).unwrap();
            r.push(
                BotKeyInfo {
                    id: kid,
                    name: k.name.clone(),
                    key: k.key.clone(),
                    created_at: k.created_at,
                    last_used: k.last_used,
                },
            );
            i += 1;
        }
        assert forall|a: int, b: int| 0 <= a < b < r@.len() implies r@[a].id != r@[b].id by {
            assert(r@[a].id == ids@[a]);
            assert(r@[b].id == ids@[b]);
        }
        assert(ids@.len() == self.bot_keys@.dom().len()) by {
            assert(ids@.no_duplicates());
            ids@.unique_seq_to_set();
        }
        r
    }
}

impl Cache {
    /// Every user as the administration API presents it, in increasing id order.
    pub fn api_users(&self) -> (r: Vec<User>)
        ensures
            r@.len() == self.users@.dom().len(),
            forall|i: int, j: int| 0 <= i < j < r@.len() ==> r@[i].uid < r@[j].uid,
            forall|i: int|
                0 <= i < r@.len() ==> self.users@.contains_key((#[trigger] r@[i]).uid),
            forall|uid: i64|
                self.users@.contains_key(uid) ==> exists|i: int|
                    0 <= i < r@.len() && #[trigger] r@[i].uid == uid,
    {
        broadcast use vstd::std_specs::btree::group_btree_axioms;

        let ids = crate::state::sorted_keys(&self.users);
        let mut r: Vec<User> = Vec::new();
        let mut i: usize = 0;
        while i < ids.len()
            invariant
                i <= ids.len(),
                ids@.to_set() == self.users@.dom(),
                ids@.len() == self.users@.dom().len(),
                forall|a: int, b: int| 0 <= a < b < ids@.len() ==> ids@[a] < ids@[b],
                r@.len() == i,
                forall|a: int| 0 <= a < i ==> (#[trigger] r@[a]).uid == ids@[a],
            decreases ids.len() - i,
        {
            let uid = ids[i];
            assert(ids@.to_set().contains(uid));
            let u = self.users.get(&uid).unwrap();
            r.push(u.api_user(uid));
            i += 1;
        }
        proof {
            assert forall|a: int| 0 <= a < r@.len() implies self.users@.contains_key((#[trigger] r@[a]).uid) by {
                assert(ids@.to_set().contains(ids@[a]));
            }
            assert forall|uid: i64| self.users@.contains_key(uid) implies exists|a: int|
                0 <= a < r@.len() && #[trigger] r@[a].uid == uid by {
                assert(ids@.to_set().contains(uid));
                let a = choose|a: int| 0 <= a < ids@.len() && ids@[a] == uid;
                assert(r@[a].uid == uid);
            }
        }
        r
    }
}

// ----- managing bot keys -----

/// The answer to creating a bot API key: the new key, or a conflict with a
/// key of the same name.
#[derive(Debug, Clone, PartialEq, Eq)]
pub enum CreateBotApiKeyResponse {
    /// The key was created; it is this text.
    Created(String),
    ConflictName,
}

/// Why a request on the bot keys of a user was refused.
#[derive(Debug, Clone, Copy, PartialEq, Eq)]
pub enum BotKeyRefusal {
    /// The requester is not an admin.
    Forbidden,
    /// No user has the id.
    UnknownUser,
}

/// The refusal, if any, of a request on the bot keys of user `uid` by a
/// requester who is an admin or not.
pub open spec fn bot_key_refusal(users: Map<i64, CacheUser>, is_admin: bool, uid: i64) -> Option<
    BotKeyRefusal,
> {
    if !is_admin {
        Some(BotKeyRefusal::Forbidden)
    } else if !users.contains_key(uid) {
        Some(BotKeyRefusal::UnknownUser)
    } else {
        None
    }
}

/// `new` is `u` with the bot keys `keys`, nothing else changed.
pub open spec fn with_bot_keys(u: CacheUser, new: CacheUser, keys: Map<i64, BotKey>) -> bool {
    &&& new == (CacheUser { bot_keys: new.bot_keys, ..u })
    &&& new.bot_keys@ == keys
}

/// The users after the bot keys of `uid` became `keys`.
pub open spec fn keys_replaced(
    old_users: Map<i64, CacheUser>,
    new_users: Map<i64, CacheUser>,
    uid: i64,
    keys: Map<i64, BotKey>,
) -> bool {
    &&& new_users.dom() == old_users.dom()
    &&& forall|u: i64| #[trigger] new_users.contains_key(u) && u != uid ==> new_users[u] == old_users[u]
    &&& with_bot_keys(old_users[uid], new_users[uid], keys)
}

impl Cache {
    /// Checks a request on the bot keys of user `uid`: only an admin may
    /// make it, and the user must exist.
    pub fn check_bot_key_access(&self, is_admin: bool, uid: i64) -> (r: Result<(), BotKeyRefusal>)
        ensures
            r == (match bot_key_refusal(self.users@, is_admin, uid) {
                Some(e) => Err::<(), BotKeyRefusal>(e),
                None => Ok(()),
            }),
    {
        if !is_admin {
            return Err(BotKeyRefusal::Forbidden);
        }
        if !self.users.contains_key(&uid) {
            return Err(BotKeyRefusal::UnknownUser);
        }
        Ok(())
    }

    /// Checks the creation of a bot key named `name` for user `uid`: `Ok(None)`
    /// when it may be created, `Ok(Some(ConflictName))` when one of the
    /// user's keys already has the name.
    pub fn check_new_bot_key(&self, is_admin: bool, uid: i64, name: &str) -> (r: Result<
        Option<CreateBotApiKeyResponse>,
        BotKeyRefusal,
    >)
        ensures
            match bot_key_refusal(self.users@, is_admin, uid) {
                Some(e) => r == Err::<Option<CreateBotApiKeyResponse>, BotKeyRefusal>(e),
                None => r == Ok::<Option<CreateBotApiKeyResponse>, BotKeyRefusal>(
                    if has_key_named(self.users@[uid].bot_keys@, name@) {
                        Some(CreateBotApiKeyResponse::ConflictName)
                    } else {
                        None
                    },
                ),
            },
    {
        self.check_bot_key_access(is_admin, uid)?;
        let user = self.users.get(&uid).unwrap();
        if user.has_bot_key_named(name) {
            Ok(Some(CreateBotApiKeyResponse::ConflictName))
        } else {
            Ok(None)
        }
    }

    /// Adds the key `key` with id `kid` to the bot keys of user `uid`.
    pub fn add_bot_key(&mut self, uid: i64, kid: i64, key: BotKey)
        requires
            old(self).users@.contains_key(uid),
        ensures
            final(self).groups == old(self).groups,
            keys_replaced(
                old(self).users@,
                final(self).users@,
                uid,
                old(self).users@[uid].bot_keys@.insert(kid, key),
            ),
    {
        let mut user = self.users.remove(&uid).unwrap();
        user.bot_keys.insert(kid, key);
        self.users.insert(uid, user);
        assert(self.users@.dom() =~= old(self).users@.dom());
    }

    /// Checks the deletion of the bot key `kid` of user `uid`: `Ok(Deleted)`
    /// when the key exists and may be deleted, `Ok(KeyNotFound)` otherwise.
    pub fn check_bot_key_removal(&self, is_admin: bool, uid: i64, kid: i64) -> (r: Result<
        DeleteBotApiKeyResponse,
        BotKeyRefusal,
    >)
        ensures
            match bot_key_refusal(self.users@, is_admin, uid) {
                Some(e) => r == Err::<DeleteBotApiKeyResponse, BotKeyRefusal>(e),
                None => r == Ok::<DeleteBotApiKeyResponse, BotKeyRefusal>(
                    if self.users@[uid].bot_keys@.contains_key(kid) {
                        DeleteBotApiKeyResponse::Deleted
                    } else {
                        DeleteBotApiKeyResponse::KeyNotFound
                    },
                ),
            },
    {
        self.check_bot_key_access(is_admin, uid)?;
        let user = self.users.get(&uid).unwrap();
        if user.bot_keys.contains_key(&kid) {
            Ok(DeleteBotApiKeyResponse::Deleted)
        } else {
            Ok(DeleteBotApiKeyResponse::KeyNotFound)
        }
    }

    /// Removes the bot key `kid` of user `uid`.
    pub fn remove_bot_key(&mut self, uid: i64, kid: i64)
        requires
            old(self).users@.contains_key(uid),
        ensures
            final(self).groups == old(self).groups,
            keys_replaced(
                old(self).users@,
                final(self).users@,
                uid,
                old(self).users@[uid].bot_keys@.remove(kid),
            ),
    {
        let mut user = self.users.remove(&uid).unwrap();
        user.bot_keys.remove(&kid);
        self.users.insert(uid, user);
        assert(self.users@.dom() =~= old(self).users@.dom());
    }

    /// The bot keys of user `uid`, for an admin.
    pub fn list_bot_api_key(&self, is_admin: bool, uid: i64) -> (r: Result<
        Vec<BotKeyInfo>,
        BotKeyRefusal,
    >)
        ensures
            match bot_key_refusal(self.users@, is_admin, uid) {
                Some(e) => r matches Err(x) && x == e,
                None => r matches Ok(v) && v@.len() == self.users@[uid].bot_keys@.dom().len()
                    && (forall|i: int| 0 <= i < v@.len() ==> {
                        let k = self.users@[uid].bot_keys@[(#[trigger] v@[i]).id];
                        &&& self.users@[uid].bot_keys@.contains_key(v@[i].id)
                        &&& v@[i].name@ == k.name@
                        &&& v@[i].key@ == k.key@
                        &&& v@[i].created_at == k.created_at
                        &&& v@[i].last_used == k.last_used
                    }) && (forall|i: int, j: int| 0 <= i < j < v@.len() ==> v@[i].id != v@[j].id),
            },
    {
        self.check_bot_key_access(is_admin, uid)?;
        let user = self.users.get(&uid).unwrap();
        Ok(user.bot_key_infos())
    }
}

// ----- updating a user with its password hashed -----

/// The user after an update, the new password (if any) stored as its hash
/// under `server_key`.
pub open spec fn updated_with_key(u: CacheUser, req: UpdateUserRequest, server_key: Seq<char>, new: CacheUser) -> bool {
    &&& (CacheUser { devices: u.devices, ..new }) == updated_user(
        u,
        req,
        if req.password is Some {
            new.password
        } else {
            None
        },
    )
    &&& (req.password matches Some(p) ==> (new.password matches Some(h) && h@
        == crate::password::password_hash(p@, server_key)))
    &&& new.devices@ == (if req.status == Some(UserStatus::Frozen) {
        closed_devices(u.devices@)
    } else {
        u.devices@
    })
}

impl CacheUser {
    /// Applies an update, hashing a new password under `server_key`.
    pub fn apply_update_with_key(&mut self, req: &UpdateUserRequest, server_key: &str)
        ensures
            updated_with_key(*old(self), *req, server_key@, *final(self)),
    {
        let hashed = match &req.password {
            Some(p) => Some(crate::password::hash_password(p.as_str(), server_key)),
            None => None,
        };
        self.apply_update(req, hashed);
    }
}

impl Cache {
    /// Updates user `uid` for the holder of a token: refused as
    /// `authorize_update` and then `check_update_conflicts` refuse, with
    /// nothing changed; otherwise the user gets the fields the request gives,
    /// a new password stored as its hash under `server_key`.
    pub fn update_user(
        &mut self,
        token_uid: i64,
        token_is_admin: bool,
        uid: i64,
        req: &UpdateUserRequest,
        server_key: &str,
    ) -> (r: Result<(), UserAdminError>)
        ensures
            r == (match update_allowed(*req, token_uid, token_is_admin, uid) {
                Err(e) => Err(e),
                Ok(()) => update_conflict(old(self).users@, uid, *req),
            }),
            r is Err ==> *final(self) == *old(self),
            r is Ok ==> {
                &&& final(self).groups == old(self).groups
                &&& final(self).users@ == old(self).users@.insert(uid, final(self).users@[uid])
                &&& updated_with_key(old(self).users@[uid], *req, server_key@, final(self).users@[uid])
            },
    {
        ApiAdminUser::authorize_update(req, token_uid, token_is_admin, uid)?;
        self.check_update_conflicts(uid, req)?;
        let mut user = self.users.remove(&uid).unwrap();
        user.apply_update_with_key(req, server_key);
        self.users.insert(uid, user);
        Ok(())
    }
}

/// After an update that gives a new password, the stored password is what
/// checking that password under the same server key accepts, so a password
/// login with it succeeds.
pub proof fn lemma_new_password_accepted(
    u: CacheUser,
    req: UpdateUserRequest,
    server_key: Seq<char>,
    new: CacheUser,
    p: String,
)
    requires
        updated_with_key(u, req, server_key, new),
        req.password == Some(p),
    ensures
        new.password matches Some(h) && crate::password::password_hash(p@, server_key) == h@,
{
}

} // verus!
