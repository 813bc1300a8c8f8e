//! Sign-in to the vachat API: the user a token stands for, and the rules of
//! password login and of issuing tokens.

use crate::password::{password_hash, verify_password};
use crate::keyed::{lookup_member, member_map, set_member, take_member};
use crate::state::{first_user, is_account, Cache, CacheDevice, CacheUser, UserStatus};
use vstd::prelude::*;

verus! {

/// The user and device an access token stands for.
#[derive(Debug, Clone, PartialEq, Eq)]
pub struct CurrentUser {
    pub uid: i64,
    pub device: String,
    pub is_admin: bool,
    pub is_guest: bool,
}

/// The user of a request authorized by an `X-API-Key` header.
#[derive(Debug, Clone)]
pub struct Token(pub CurrentUser);

/// The user of a request authorized by an `api-key` query parameter.
#[derive(Debug, Clone)]
pub struct TokenInQuery(pub CurrentUser);

/// The token endpoints.
pub struct ApiToken;

/// A successful login: the server, the token pair and its lifetime in seconds.
#[derive(Debug, Clone)]
pub struct LoginResponse {
    pub server_id: String,
    pub token: String,
    pub refresh_token: String,
    pub expired_in: i64,
}

/// Why a login was refused.
#[derive(Debug, Clone, Copy, PartialEq, Eq)]
pub enum LoginRefusal {
    LoginMethodNotSupported,
    /// A wrong password, or an account without one.
    InvalidAccount,
    UserDoesNotExist,
    Frozen,
}

/// The device a login names when it names none.
pub fn default_device() -> (d: String)
    ensures
        d@ == "unknown"@,
{
    "unknown".to_owned()
}

/// The lower-case form of a text, as `str::to_lowercase` gives it.
pub uninterp spec fn lowercase_text(s: Seq<char>) -> Seq<char>;

/// Lower-cases a text with `str::to_lowercase` (Unicode lower case).
#[verifier::external_body]
pub(crate) fn to_lowercase(s: &str) -> (r: String)
    ensures
        r@ == lowercase_text(s@),
{
    s.to_lowercase()
}

/// `r` is the smallest id of a user whose email or name is `account`.
pub open spec fn first_account(users: Map<i64, CacheUser>, account: Seq<char>, r: Option<i64>) -> bool {
    first_user(users, |u: CacheUser| is_account(u, account), r)
}

impl ApiToken {
    /// Decides a password login: the account, lower-cased, names the user
    /// with the smallest id whose email or name it is, ignoring ASCII case;
    /// the password must match that user's stored hash.
    pub fn password_login(
        cache: &Cache,
        password_enabled: bool,
        account: &str,
        password: &str,
        server_key: &str,
    ) -> (r: Result<i64, LoginRefusal>)
        ensures
            !password_enabled ==> r == Err::<i64, LoginRefusal>(
                LoginRefusal::LoginMethodNotSupported,
            ),
            password_enabled ==> exists|found: Option<i64>|
                {
                    &&& #[trigger] first_account(cache.users@, lowercase_text(account@), found)
                    &&& match found {
                        None => r == Err::<i64, LoginRefusal>(LoginRefusal::UserDoesNotExist),
                        Some(uid) => match cache.users@[uid].password {
                            Some(h) => if password_hash(password@, server_key@) == h@ {
                                r == Ok::<i64, LoginRefusal>(uid)
                            } else {
                                r == Err::<i64, LoginRefusal>(LoginRefusal::InvalidAccount)
                            },
                            None => r == Err::<i64, LoginRefusal>(LoginRefusal::InvalidAccount),
                        },
                    }
                },
    {
        if !password_enabled {
            return Err(LoginRefusal::LoginMethodNotSupported);
        }
        let lowered = to_lowercase(account);
        let found = cache.find_account(lowered.as_str());
        assert(first_account(cache.users@, lowered@, found));
        let uid = match found {
            Some(uid) => uid,
            None => return Err(LoginRefusal::UserDoesNotExist),
        };
        let user = match cache.users.get(&uid) {
            Some(u) => u,
            None => return Err(LoginRefusal::UserDoesNotExist),
        };
        match &user.password {
            Some(h) => if verify_password(password, server_key, h.as_str()) {
                Ok(uid)
            } else {
                Err(LoginRefusal::InvalidAccount)
            },
            None => Err(LoginRefusal::InvalidAccount),
        }
    }

    /// Decides the issuing of a token to user `uid` on `device`: the user must
    /// exist and not be frozen; the token stands for the user on that device.
    pub fn login_user(cache: &Cache, uid: i64, device: &str) -> (r: Result<
        CurrentUser,
        LoginRefusal,
    >)
        ensures
            !cache.users@.contains_key(uid) ==> r == Err::<CurrentUser, LoginRefusal>(
                LoginRefusal::UserDoesNotExist,
            ),
            cache.users@.contains_key(uid) && cache.users@[uid].status == UserStatus::Frozen ==> r
                == Err::<CurrentUser, LoginRefusal>(LoginRefusal::Frozen),
            cache.users@.contains_key(uid) && cache.users@[uid].status != UserStatus::Frozen ==> (r
                matches Ok(cu) && cu.uid == uid && cu.device@ == device@ && cu.is_admin
                == cache.users@[uid].is_admin && cu.is_guest == cache.users@[uid].is_guest),
    {
        let user = match cache.users.get(&uid) {
            Some(u) => u,
            None => return Err(LoginRefusal::UserDoesNotExist),
        };
        if user.status == UserStatus::Frozen {
            return Err(LoginRefusal::Frozen);
        }
        Ok(
            CurrentUser {
                uid,
                device: device.to_owned(),
                is_admin: user.is_admin,
                is_guest: user.is_guest,
            },
        )
    }
}

// ----- devices -----

/// `new` is `u` with other devices, nothing else changed.
pub open spec fn with_devices(u: CacheUser, new: CacheUser) -> bool {
    new == (CacheUser { devices: new.devices, ..u })
}

/// Whether the device `name` of a device list has an open events connection.
pub open spec fn device_connected(devices: Seq<(String, CacheDevice)>, name: Seq<char>) -> bool {
    member_map(devices).get(name) matches Some(d) && d.connected
}

impl CacheUser {
    /// Records a login on `device`: its push token becomes `device_token`; a
    /// known device keeps its events connection, a new one has none.
    pub fn login_device(&mut self, device: &str, device_token: Option<String>)
        ensures
            with_devices(*old(self), *final(self)),
            member_map(final(self).devices@) == member_map(old(self).devices@).insert(
                device@,
                CacheDevice {
                    device_token,
                    connected: device_connected(old(self).devices@, device@),
                },
            ),
    {
        let connected = match lookup_member(&self.devices, device) {
            Some(d) => d.connected,
            None => false,
        };
        set_member(&mut self.devices, device.to_owned(), CacheDevice { device_token, connected });
    }

    /// Sets the push token of `device`, when the user has that device.
    pub fn update_device_token(&mut self, device: &str, device_token: Option<String>)
        ensures
            with_devices(*old(self), *final(self)),
            member_map(final(self).devices@) == (if member_map(old(self).devices@).contains_key(
                device@,
            ) {
                member_map(old(self).devices@).insert(
                    device@,
                    CacheDevice {
                        device_token,
                        connected: member_map(old(self).devices@)[device@].connected,
                    },
                )
            } else {
                member_map(old(self).devices@)
            }),
    {
        let connected = match lookup_member(&self.devices, device) {
            Some(d) => d.connected,
            None => return,
        };
        set_member(&mut self.devices, device.to_owned(), CacheDevice { device_token, connected });
    }

    /// Logs `device` out: the device is removed. True when it had an open
    /// events connection, which is to be told that it is kicked out.
    pub fn logout_device(&mut self, device: &str) -> (kicked: bool)
        ensures
            with_devices(*old(self), *final(self)),
            member_map(final(self).devices@) == member_map(old(self).devices@).remove(device@),
            kicked == device_connected(old(self).devices@, device@),
    {
        match take_member(&mut self.devices, device) {
            Some(d) => d.connected,
            None => false,
        }
    }
}

/// The users after user `uid` changed to `new`, the others unchanged.
pub open spec fn user_replaced(
    old_users: Map<i64, CacheUser>,
    new_users: Map<i64, CacheUser>,
    uid: i64,
) -> bool {
    &&& new_users.dom() == old_users.dom()
    &&& forall|u: i64| #[trigger] new_users.contains_key(u) && u != uid ==> new_users[u] == old_users[u]
}

impl Cache {
    /// Records a login of user `uid` on `device` with push token `device_token`.
    pub fn login_device(&mut self, uid: i64, device: &str, device_token: Option<String>)
        requires
            old(self).users@.contains_key(uid),
        ensures
            final(self).groups == old(self).groups,
            user_replaced(old(self).users@, final(self).users@, uid),
            with_devices(old(self).users@[uid], final(self).users@[uid]),
            member_map(final(self).users@[uid].devices@) == member_map(
                old(self).users@[uid].devices@,
            ).insert(
                device@,
                CacheDevice {
                    device_token,
                    connected: device_connected(old(self).users@[uid].devices@, device@),
                },
            ),
    {
        let mut user = self.users.remove(&uid).unwrap();
        user.login_device(device, device_token);
        self.users.insert(uid, user);
        assert(self.users@.dom() =~= old(self).users@.dom());
    }

    /// Sets the push token of `device` of user `uid`; false, with nothing
    /// changed, when there is no such user.
    pub fn update_device_token(&mut self, uid: i64, device: &str, device_token: Option<String>) -> (found: bool)
        ensures
            found == old(self).users@.contains_key(uid),
            final(self).groups == old(self).groups,
            !found ==> final(self).users@ == old(self).users@,
            found ==> {
                let before = old(self).users@[uid].devices@;
                &&& user_replaced(old(self).users@, final(self).users@, uid)
                &&& with_devices(old(self).users@[uid], final(self).users@[uid])
                &&& member_map(final(self).users@[uid].devices@) == (if member_map(
                    before,
                ).contains_key(device@) {
                    member_map(before).insert(
                        device@,
                        CacheDevice {
                            device_token,
                            connected: member_map(before)[device@].connected,
                        },
                    )
                } else {
                    member_map(before)
                })
            },
    {
        match self.users.remove(&uid) {
            Some(mut user) => {
                user.update_device_token(device, device_token);
                self.users.insert(uid, user);
                assert(self.users@.dom() =~= old(self).users@.dom());
                true
            },
            None => {
                assert(self.users@ =~= old(self).users@);
                false
            },
        }
    }

    /// Logs user `uid` out of `device`: `None` when there is no such user
    /// (an illegal token), else whether the device's events connection is to
    /// be kicked out.
    pub fn logout_device(&mut self, uid: i64, device: &str) -> (r: Option<bool>)
        ensures
            final(self).groups == old(self).groups,
            !old(self).users@.contains_key(uid) ==> r is None && final(self).users@ == old(
                self,
            ).users@,
            old(self).users@.contains_key(uid) ==> {
                &&& r == Some(device_connected(old(self).users@[uid].devices@, device@))
                &&& user_replaced(old(self).users@, final(self).users@, uid)
                &&& with_devices(old(self).users@[uid], final(self).users@[uid])
                &&& member_map(final(self).users@[uid].devices@) == member_map(
                    old(self).users@[uid].devices@,
                ).remove(device@)
            },
    {
        match self.users.remove(&uid) {
            Some(mut user) => {
                let kicked = user.logout_device(device);
                self.users.insert(uid, user);
                assert(self.users@.dom() =~= old(self).users@.dom());
                Some(kicked)
            },
            None => {
                assert(self.users@ =~= old(self).users@);
                None
            },
        }
    }
}

// ----- renewing tokens -----

/// The kind of a signed token.
#[derive(Debug, Clone, Copy, PartialEq, Eq)]
pub enum TokenKind {
    AccessToken,
    RefreshToken,
}

/// Two token users are the same user on the same device with the same rights.
pub open spec fn same_current_user(a: CurrentUser, b: CurrentUser) -> bool {
    a.uid == b.uid && a.device@ == b.device@ && a.is_admin == b.is_admin && a.is_guest
        == b.is_guest
}

/// The user a token pair may be renewed for: the first token is an access
/// token, the second a refresh token, and both stand for the same user on
/// the same device. `access` and `refresh` are the kinds and users the two
/// tokens parse to, when they parse.
pub fn token_pair_user(
    access: Option<(TokenKind, CurrentUser)>,
    refresh: Option<(TokenKind, CurrentUser)>,
) -> (r: Option<CurrentUser>)
    ensures
        r == (match (access, refresh) {
            (Some((TokenKind::AccessToken, a)), Some((TokenKind::RefreshToken, b))) => if same_current_user(a, b) {
                Some(a)
            } else {
                None
            },
            _ => None,
        }),
{
    match (access, refresh) {
        (Some((TokenKind::AccessToken, a)), Some((TokenKind::RefreshToken, b))) => {
            if a.uid == b.uid && crate::text::str_equal(a.device.as_str(), b.device.as_str())
                && a.is_admin == b.is_admin && a.is_guest == b.is_guest {
                Some(a)
            } else {
                None
            }
        },
        _ => None,
    }
}

} // verus!
