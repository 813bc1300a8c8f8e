//! The description of a user to create, and the checks and cache entry of its
//! creation.

use crate::password::{hash_password, password_hash};
use crate::state::{email_taken, name_taken, BotKey, Cache, CacheContactInfo, CacheUser, UserStatus};
use std::collections::{HashMap, HashSet};
use vstd::prelude::*;

verus! {

/// How a user comes to be created.
#[derive(Debug, Clone, Copy)]
pub enum CreateUserBy<'a> {
    Guest,
    Password { email: &'a str, password: &'a str },
    OpenIdConnect { issuer: &'a str, subject: &'a str, email: Option<&'a str> },
    ThirdParty { thirdparty_uid: &'a str, username: &'a str },
}

/// The email a way of creation gives.
pub open spec fn creation_email<'a>(by: CreateUserBy<'a>) -> Option<&'a str> {
    match by {
        CreateUserBy::Password { email, .. } => Some(email),
        CreateUserBy::OpenIdConnect { email, .. } => email,
        _ => None,
    }
}

/// The stored name of a way of creation.
pub open spec fn creation_kind_text(by: CreateUserBy) -> Seq<char> {
    match by {
        CreateUserBy::Guest => "guest"@,
        CreateUserBy::Password { .. } => "password"@,
        CreateUserBy::OpenIdConnect { .. } => "oidc"@,
        CreateUserBy::ThirdParty { .. } => "thirdparty"@,
    }
}

impl<'a> CreateUserBy<'a> {
    /// The name the way of creation is stored under.
    pub fn creation_kind(&self) -> (s: &'static str)
        ensures
            s@ == creation_kind_text(*self),
    {
        match self {
            CreateUserBy::Guest => "guest",
            CreateUserBy::Password { .. } => "password",
            CreateUserBy::OpenIdConnect { .. } => "oidc",
            CreateUserBy::ThirdParty { .. } => "thirdparty",
        }
    }

    /// The email of the new user, if the way of creation gives one.
    pub fn email(&self) -> (e: Option<&'a str>)
        ensures
            e == creation_email(*self),
    {
        match self {
            CreateUserBy::Guest => None,
            CreateUserBy::Password { email, .. } => Some(*email),
            CreateUserBy::OpenIdConnect { email, .. } => *email,
            CreateUserBy::ThirdParty { .. } => None,
        }
    }

    /// The password of the new user, if the way of creation gives one.
    pub fn password(&self) -> (p: Option<&'a str>)
        ensures
            p == (match *self {
                CreateUserBy::Password { password, .. } => Some(password),
                _ => None,
            }),
    {
        match self {
            CreateUserBy::Guest => None,
            CreateUserBy::Password { password, .. } => Some(*password),
            CreateUserBy::OpenIdConnect { .. } => None,
            CreateUserBy::ThirdParty { .. } => None,
        }
    }
}

/// A user to create.
#[derive(Debug, Clone, Copy)]
pub struct CreateUser<'a> {
    pub name: &'a str,
    pub gender: i32,
    pub is_admin: bool,
    /// The language code, when one is asked for.
    pub language: Option<&'a str>,
    pub avatar: Option<&'a [u8]>,
    pub create_by: CreateUserBy<'a>,
    pub webhook_url: Option<&'a str>,
    pub is_bot: bool,
}

impl<'a> CreateUser<'a> {
    /// A user with the given name, way of creation and admin flag; no gender,
    /// language, avatar or webhook, not a bot.
    pub fn new(name: &'a str, create_by: CreateUserBy<'a>, is_admin: bool) -> (u: Self)
        ensures
            u == (CreateUser {
                name,
                gender: 0,
                is_admin,
                language: None,
                avatar: None,
                create_by,
                webhook_url: None,
                is_bot: false,
            }),
    {
        CreateUser {
            name,
            gender: 0,
            is_admin,
            language: None,
            avatar: None,
            create_by,
            webhook_url: None,
            is_bot: false,
        }
    }

    /// The same user with the given gender.
    pub fn gender(self, gender: i32) -> (u: Self)
        ensures
            u == (CreateUser { gender, ..self }),
    {
        CreateUser { gender, ..self }
    }

    /// The same user with the given admin flag.
    pub fn set_admin(self, is_admin: bool) -> (u: Self)
        ensures
            u == (CreateUser { is_admin, ..self }),
    {
        CreateUser { is_admin, ..self }
    }

    /// The same user with the given bot flag.
    pub fn set_bot(self, is_bot: bool) -> (u: Self)
        ensures
            u == (CreateUser { is_bot, ..self }),
    {
        CreateUser { is_bot, ..self }
    }

    /// The same user with the given language.
    pub fn language(self, language: &'a str) -> (u: Self)
        ensures
            u == (CreateUser { language: Some(language), ..self }),
    {
        CreateUser { language: Some(language), ..self }
    }

    /// The same user with the given avatar image.
    pub fn avatar(self, avatar: &'a [u8]) -> (u: Self)
        ensures
            u == (CreateUser { avatar: Some(avatar), ..self }),
    {
        CreateUser { avatar: Some(avatar), ..self }
    }

    /// The same user with the given webhook URL.
    pub fn webhook_url(self, webhook_url: &'a str) -> (u: Self)
        ensures
            u == (CreateUser { webhook_url: Some(webhook_url), ..self }),
    {
        CreateUser { webhook_url: Some(webhook_url), ..self }
    }

    /// Whether the user is created as a guest.
    pub fn is_guest(&self) -> (b: bool)
        ensures
            b == (self.create_by is Guest),
    {
        match self.create_by {
            CreateUserBy::Guest => true,
            _ => false,
        }
    }

    /// The cache entry of the created user: no devices, mutes or keys, a
    /// normal status, created and updated at `now`, its avatar time `now`
    /// when it has an avatar and 0 otherwise.
    pub fn cache_user(&self, hashed_password: Option<String>, language: String, now: i64) -> (u:
        CacheUser)
        ensures
            u.name@ == self.name@,
            u.email matches Some(e) ==> creation_email(self.create_by) matches Some(x) && e@ == x@,
            u.email is None <==> creation_email(self.create_by) is None,
            u.password == hashed_password,
            u.gender == self.gender,
            u.is_admin == self.is_admin,
            u.language == language,
            u.create_by@ == creation_kind_text(self.create_by),
            u.devices@.len() == 0,
            u.mute_user@ == Map::<i64, Option<i64>>::empty(),
            u.mute_group@ == Map::<i64, Option<i64>>::empty(),
            u.burn_after_reading_user@ == Map::<i64, i64>::empty(),
            u.burn_after_reading_group@ == Map::<i64, i64>::empty(),
            u.read_index_user@ == Map::<i64, i64>::empty(),
            u.read_index_group@ == Map::<i64, i64>::empty(),
            u.pinned_chat_user@ == Set::<i64>::empty(),
            u.pinned_chat_group@ == Set::<i64>::empty(),
            u.contacts@ == Map::<i64, CacheContactInfo>::empty(),
            u.created_at == now,
            u.updated_at == now,
            u.avatar_updated_at == (if self.avatar is Some {
                now
            } else {
                0
            }),
            u.status == UserStatus::Normal,
            u.is_guest == (self.create_by is Guest),
            u.webhook_url matches Some(w) ==> self.webhook_url matches Some(x) && w@ == x@,
            u.webhook_url is None <==> self.webhook_url is None,
            u.is_bot == self.is_bot,
            u.bot_keys@ == Map::<i64, BotKey>::empty(),
            !u.bot_online,
    {
        let email = match self.create_by.email() {
            Some(e) => Some(e.to_owned()),
            None => None,
        };
        let webhook_url = match self.webhook_url {
            Some(w) => Some(w.to_owned()),
            None => None,
        };
        CacheUser {
            email,
            name: self.name.to_owned(),
            password: hashed_password,
            gender: self.gender,
            is_admin: self.is_admin,
            language,
            create_by: self.create_by.creation_kind().to_owned(),
            devices: Vec::new(),
            mute_user: HashMap::new(),
            mute_group: HashMap::new(),
            burn_after_reading_user: HashMap::new(),
            burn_after_reading_group: HashMap::new(),
            read_index_user: HashMap::new(),
            read_index_group: HashMap::new(),
            pinned_chat_user: HashSet::new(),
            pinned_chat_group: HashSet::new(),
            contacts: HashMap::new(),
            created_at: now,
            updated_at: now,
            avatar_updated_at: if self.avatar.is_some() {
                now
            } else {
                0
            },
            status: UserStatus::Normal,
            is_guest: self.is_guest(),
            webhook_url,
            is_bot: self.is_bot,
            bot_keys: HashMap::new(),
            bot_online: false,
        }
    }
}

/// Why a user could not be created.
#[derive(Debug, Clone, Copy, PartialEq, Eq)]
pub enum CreateUserError {
    NameConflict,
    EmailConflict,
}

impl Cache {
    /// Checks that a user may be created: its name and email are free.
    pub fn check_new_user(&self, create_user: &CreateUser) -> (r: Result<(), CreateUserError>)
        ensures
            r == new_user_check(self.users@, *create_user),
    {
        if !self.check_name_conflict(create_user.name) {
            return Err(CreateUserError::NameConflict);
        }
        if let Some(email) = create_user.create_by.email() {
            if !self.check_email_conflict(email) {
                return Err(CreateUserError::EmailConflict);
            }
        }
        Ok(())
    }
}

/// Whether a user may be created among `users`: its name and email must be
/// free, ignoring ASCII case.
pub open spec fn new_user_check(users: Map<i64, CacheUser>, c: CreateUser) -> Result<(), CreateUserError> {
    if name_taken(users, c.name@) {
        Err::<(), CreateUserError>(CreateUserError::NameConflict)
    } else if creation_email(c.create_by) matches Some(e) && email_taken(users, e@) {
        Err(CreateUserError::EmailConflict)
    } else {
        Ok(())
    }
}

/// The password a way of creation gives.
pub open spec fn creation_password<'a>(by: CreateUserBy<'a>) -> Option<&'a str> {
    match by {
        CreateUserBy::Password { password, .. } => Some(password),
        _ => None,
    }
}

/// `stored` is the hash under `server_key` of the password `given`, and
/// nothing when none is given.
pub open spec fn password_stored(stored: Option<String>, given: Option<&str>, server_key: Seq<char>) -> bool {
    match given {
        Some(p) => stored matches Some(h) && h@ == password_hash(p@, server_key),
        None => stored is None,
    }
}

/// `u` is the cache entry `cache_user` makes of `c` with the stored password
/// `hashed_password` and language `language` at `now`.
pub open spec fn user_entry(u: CacheUser, c: CreateUser, hashed_password: Option<String>, language: String, now: i64) -> bool {
    &&& u.name@ == c.name@
    &&& (u.email matches Some(e) ==> creation_email(c.create_by) matches Some(x) && e@ == x@)
    &&& (u.email is None <==> creation_email(c.create_by) is None)
    &&& u.password == hashed_password
    &&& u.gender == c.gender
    &&& u.is_admin == c.is_admin
    &&& u.language == language
    &&& u.create_by@ == creation_kind_text(c.create_by)
    &&& u.devices@.len() == 0
    &&& u.mute_user@ == Map::<i64, Option<i64>>::empty()
    &&& u.mute_group@ == Map::<i64, Option<i64>>::empty()
    &&& u.burn_after_reading_user@ == Map::<i64, i64>::empty()
    &&& u.burn_after_reading_group@ == Map::<i64, i64>::empty()
    &&& u.read_index_user@ == Map::<i64, i64>::empty()
    &&& u.read_index_group@ == Map::<i64, i64>::empty()
    &&& u.pinned_chat_user@ == Set::<i64>::empty()
    &&& u.pinned_chat_group@ == Set::<i64>::empty()
    &&& u.contacts@ == Map::<i64, CacheContactInfo>::empty()
    &&& u.created_at == now
    &&& u.updated_at == now
    &&& u.avatar_updated_at == (if c.avatar is Some {
        now
    } else {
        0
    })
    &&& u.status == UserStatus::Normal
    &&& u.is_guest == (c.create_by is Guest)
    &&& (u.webhook_url matches Some(w) ==> c.webhook_url matches Some(x) && w@ == x@)
    &&& (u.webhook_url is None <==> c.webhook_url is None)
    &&& u.is_bot == c.is_bot
    &&& u.bot_keys@ == Map::<i64, BotKey>::empty()
    &&& !u.bot_online
}

/// The language a user is created with: the one asked for, else none.
pub open spec fn creation_language(c: CreateUser) -> Seq<char> {
    match c.language {
        Some(l) => l@,
        None => Seq::empty(),
    }
}

impl<'a> CreateUser<'a> {
    /// The cache entry of the user, its password (when the way of creation
    /// gives one) stored as its hash under `server_key`, its language the
    /// one asked for or empty; the rest as `cache_user` makes it.
    pub fn new_entry(&self, server_key: &str, now: i64) -> (u: CacheUser)
        ensures
            user_entry(u, *self, u.password, u.language, now),
            u.language@ == creation_language(*self),
            password_stored(u.password, creation_password(self.create_by), server_key@),
    {
        let hashed = match self.create_by.password() {
            Some(p) => Some(hash_password(p, server_key)),
            None => None,
        };
        let language = match self.language {
            Some(l) => l.to_owned(),
            None => String::new(),
        };
        self.cache_user(hashed, language, now)
    }
}

impl Cache {
    /// Creates the user `uid`, the id its stored record got: refused as
    /// `check_new_user` refuses, with nothing changed; otherwise the entry
    /// `new_entry` makes is added under `uid`, its password stored as its
    /// hash under `server_key`.
    pub fn create_user(&mut self, uid: i64, c: &CreateUser, server_key: &str, now: i64) -> (r: Result<
        (),
        CreateUserError,
    >)
        ensures
            r == new_user_check(old(self).users@, *c),
            r is Err ==> *final(self) == *old(self),
            r is Ok ==> {
                let u = final(self).users@[uid];
                &&& final(self).groups == old(self).groups
                &&& final(self).users@ == old(self).users@.insert(uid, u)
                &&& user_entry(u, *c, u.password, u.language, now)
                &&& u.language@ == creation_language(*c)
                &&& password_stored(u.password, creation_password(c.create_by), server_key@)
            },
    {
        self.check_new_user(c)?;
        let u = c.new_entry(server_key, now);
        self.users.insert(uid, u);
        Ok(())
    }
}

/// A user created with a password stores what checking that password under
/// the same server key accepts, so a password login with it succeeds.
pub proof fn lemma_created_password_accepted(stored: Option<String>, p: &str, server_key: Seq<char>)
    requires
        password_stored(stored, Some(p), server_key),
    ensures
        stored matches Some(h) && password_hash(p@, server_key) == h@,
{
}

} // verus!
