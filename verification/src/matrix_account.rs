//! The account side of the Matrix bridge: the device a bot token stands for,
//! the device and user endpoints, and the decisions of the key endpoints.

use crate::auth::{decode_path_segment, decoded_segment, parse_and_validate_matrix_user_id, user_id_parts, MatrixIdError};
use crate::state::{first_user, Cache, CacheUser};
use crate::text::{chars_string, has_prefix, is_prefix, skip_until, skip_until_at, str_chars, str_equal};
use vstd::prelude::*;
use vstd::std_specs::iter::IteratorSpec;

verus! {

broadcast use {vstd::std_specs::hash::group_hash_axioms, vstd::std_specs::btree::group_btree_axioms};

/// The device of a bot token that matches none of the bot's keys.
pub const BOT_DEVICE: &'static str = "BOTDEVICE";

/// The device of the server's own Olm account.
pub const SERVER_DEVICE: &'static str = "SERVERDEVICE";

impl CacheUser {
    /// The device the token `token` stands for: the name of a bot key whose
    /// key is the token, or `BOTDEVICE` when none is. Which key is read
    /// first, when several hold the token, depends on the map's order.
    pub fn token_device(&self, token: &str) -> (d: String)
        ensures
            (exists|kid: i64|
                self.bot_keys@.contains_key(kid) && #[trigger] self.bot_keys@[kid].key@ == token@
                    && self.bot_keys@[kid].name@ == d@) || (!crate::state::has_key_text(
                self.bot_keys@,
                token@,
            ) && d@ == BOT_DEVICE@),
    {
        for k in it: self.bot_keys.values()
            invariant
                it.seq() == vstd::std_specs::hash::spec_values_iter(&self.bot_keys).remaining(),
                forall|j: int| 0 <= j < it.index() ==> it.seq()[j].key@ != token@,
        {
            if str_equal(k.key.as_str(), token) {
                proof {
                    let u = it.seq().unref();
                    assert(u[it.index()] == *it.seq()[it.index()]);
                    assert(u.to_set().contains(u[it.index()]));
                    assert(self.bot_keys@.values().contains(u[it.index()]));
                }
                return k.name.clone();
            }
        }
        proof {
            let r = vstd::std_specs::hash::spec_values_iter(&self.bot_keys).remaining();
            let u = r.unref();
            assert forall|kid: i64| self.bot_keys@.contains_key(kid) implies #[trigger] self.bot_keys@[kid].key@ != token@ by {
                assert(self.bot_keys@.values().contains(self.bot_keys@[kid]));
                assert(u.to_set().contains(self.bot_keys@[kid]));
                let j = choose|j: int| 0 <= j < u.len() && u[j] == self.bot_keys@[kid];
                assert(*r[j] == u[j]);
            }
        }
        BOT_DEVICE.to_owned()
    }

    /// The name of one of the user's bot keys, `None` when it has none.
    /// Which one depends on the map's order.
    pub fn any_bot_key_name(&self) -> (n: Option<String>)
        ensures
            match n {
                Some(name) => exists|kid: i64|
                    self.bot_keys@.contains_key(kid) && #[trigger] self.bot_keys@[kid].name == name,
                None => self.bot_keys@.dom().len() == 0,
            },
    {
        for k in it: self.bot_keys.values()
            invariant
                it.seq() == vstd::std_specs::hash::spec_values_iter(&self.bot_keys).remaining(),
                it.index() == 0,
        {
            proof {
                let u = it.seq().unref();
                assert(u[0] == *it.seq()[0]);
                assert(u.to_set().contains(u[0]));
                assert(self.bot_keys@.values().contains(u[0]));
            }
            return Some(k.name.clone());
        }
        None
    }
}

// ----- devices -----

/// The path under which the devices endpoint lies.
pub const DEVICES_PATH: &'static str = "/_matrix/client/v3/devices";

/// `s` without its leading `/`s.
pub open spec fn trim_start_slashes(s: Seq<char>) -> Seq<char>
    decreases s.len(),
{
    if s.len() > 0 && s[0] == '/' {
        trim_start_slashes(s.skip(1))
    } else {
        s
    }
}

/// The device id a devices path names: the rest of the path after the
/// devices prefix, without leading and trailing `/`s; empty when the path
/// is not under the prefix.
pub open spec fn device_path_id(path: Seq<char>) -> Seq<char> {
    if is_prefix(DEVICES_PATH@, path) {
        crate::admin_system::trim_end_slashes(
            trim_start_slashes(path.skip(DEVICES_PATH@.len() as int)),
        )
    } else {
        Seq::empty()
    }
}

/// The method of a request to the devices endpoint.
#[derive(Debug, Clone, Copy, PartialEq, Eq)]
pub enum DevicesMethod {
    Get,
    Delete,
    Other,
}

/// What a request to the devices endpoint asks for.
#[derive(Debug, Clone, PartialEq, Eq)]
pub enum DevicesAction {
    /// Delete the keys of the device; for the server device, its Olm account too.
    Delete { device_id: String, server_account: bool },
    /// Describe one device.
    Describe { device_id: String },
    /// List the bot's device and the server device.
    List { bot_device: String },
}

/// Why a request to the devices endpoint was refused.
#[derive(Debug, Clone, Copy, PartialEq, Eq)]
pub enum DevicesError {
    MissingDeviceId,
    MethodNotAllowed,
}

/// The device id a devices path names.
pub fn devices_path_id(path: &str) -> (d: String)
    ensures
        d@ == device_path_id(path@),
{
    let v = str_chars(path);
    let pre = str_chars(DEVICES_PATH);
    if !has_prefix(&v, &pre) {
        return String::new();
    }
    let mut lo = pre.len();
    assert(v@.skip(pre.len() as int) =~= v@.subrange(lo as int, v.len() as int));
    while lo < v.len() && v[lo] == '/'
        invariant
            pre.len() <= lo <= v.len(),
            trim_start_slashes(v@.skip(pre.len() as int)) == trim_start_slashes(
                v@.subrange(lo as int, v.len() as int),
            ),
        decreases v.len() - lo,
    {
        assert(v@.subrange(lo as int, v.len() as int).skip(1) =~= v@.subrange(
            lo + 1,
            v.len() as int,
        ));
        lo += 1;
    }
    let mut hi = v.len();
    assert(v@.subrange(lo as int, hi as int) == trim_start_slashes(v@.skip(pre.len() as int))) by {
        if lo < v.len() {
            assert(v@.subrange(lo as int, v.len() as int)[0] == v@[lo as int]);
        }
    }
    while hi > lo && v[hi - 1] == '/'
        invariant
            lo <= hi <= v.len(),
            crate::admin_system::trim_end_slashes(v@.subrange(lo as int, v.len() as int))
                == crate::admin_system::trim_end_slashes(v@.subrange(lo as int, hi as int)),
        decreases hi - lo,
    {
        assert(v@.subrange(lo as int, hi as int).drop_last() =~= v@.subrange(
            lo as int,
            hi - 1,
        ));
        hi -= 1;
    }
    chars_string(&v, lo, hi)
}

/// What a request to the devices endpoint asks for: a `DELETE` names a
/// device to delete; a `GET` describes the device it names, or lists the
/// bot's device `bot_device` and the server device.
pub fn devices_request(method: DevicesMethod, path: &str, bot_device: &str) -> (r: Result<
    DevicesAction,
    DevicesError,
>)
    ensures
        match method {
            DevicesMethod::Delete => if device_path_id(path@).len() == 0 {
                r == Err::<DevicesAction, DevicesError>(DevicesError::MissingDeviceId)
            } else {
                r matches Ok(DevicesAction::Delete { device_id, server_account }) && device_id@
                    == device_path_id(path@) && server_account == (device_id@ == SERVER_DEVICE@)
            },
            DevicesMethod::Get => if device_path_id(path@).len() == 0 {
                r matches Ok(DevicesAction::List { bot_device: b }) && b@ == bot_device@
            } else {
                r matches Ok(DevicesAction::Describe { device_id }) && device_id@ == device_path_id(
                    path@,
                )
            },
            DevicesMethod::Other => r == Err::<DevicesAction, DevicesError>(
                DevicesError::MethodNotAllowed,
            ),
        },
{
    let device_id = devices_path_id(path);
    match method {
        DevicesMethod::Delete => {
            if device_id.as_str().is_empty() {
                Err(DevicesError::MissingDeviceId)
            } else {
                let server_account = str_equal(device_id.as_str(), SERVER_DEVICE);
                Ok(DevicesAction::Delete { device_id, server_account })
            }
        },
        DevicesMethod::Get => {
            if device_id.as_str().is_empty() {
                Ok(DevicesAction::List { bot_device: bot_device.to_owned() })
            } else {
                Ok(DevicesAction::Describe { device_id })
            }
        },
        DevicesMethod::Other => Err(DevicesError::MethodNotAllowed),
    }
}

// ----- user endpoints -----

/// The path under which the user endpoints lie.
pub const USER_PATH: &'static str = "/_matrix/client/v3/user/";

/// An endpoint under a user's path.
#[derive(Debug, Clone, Copy, PartialEq, Eq)]
pub enum UserEndpoint {
    /// `filter`: create a filter.
    Filter,
    /// `account_data/m.direct`.
    DirectAccountData,
    /// `account_data/m.secret_storage.default_key`, which is not supported.
    SecretStorageDefaultKey,
    /// Any other endpoint.
    Unknown,
}

/// Why a request to a user endpoint was refused.
#[derive(Debug, Clone, PartialEq, Eq)]
pub enum UserRouteError {
    /// The path is not under the user path.
    InvalidPath,
    /// No `/` follows the user id.
    InvalidPathFormat,
    /// The user id is not valid percent-encoded UTF-8.
    InvalidEncoding,
    /// The user id is not a user of this server.
    InvalidUserId(MatrixIdError),
    /// The user id is not the requesting user's.
    Forbidden,
}

/// The endpoint the rest of a user path names.
pub open spec fn user_endpoint(rest: Seq<char>) -> UserEndpoint {
    if rest == "filter"@ {
        UserEndpoint::Filter
    } else if rest == "account_data/m.direct"@ {
        UserEndpoint::DirectAccountData
    } else if rest == "account_data/m.secret_storage.default_key"@ {
        UserEndpoint::SecretStorageDefaultKey
    } else {
        UserEndpoint::Unknown
    }
}

/// `r` routes the user path `path` for the requesting user named
/// `auth_name`: the path is the user path, an encoded user id, `/` and an
/// endpoint; the id must be the requesting user's on the server `domain`.
pub open spec fn user_route(
    path: Seq<char>,
    auth_name: Seq<char>,
    domain: Seq<char>,
    r: Result<UserEndpoint, UserRouteError>,
) -> bool {
    if !is_prefix(USER_PATH@, path) {
        r == Err::<UserEndpoint, UserRouteError>(UserRouteError::InvalidPath)
    } else {
        let s = path.skip(USER_PATH@.len() as int);
        let end = skip_until(s, 0, '/');
        if end >= s.len() {
            r == Err::<UserEndpoint, UserRouteError>(UserRouteError::InvalidPathFormat)
        } else {
            match decoded_segment(s.take(end)) {
                None => r == Err::<UserEndpoint, UserRouteError>(UserRouteError::InvalidEncoding),
                Some(user_id) => match user_id_parts(user_id) {
                    None => r == Err::<UserEndpoint, UserRouteError>(
                        UserRouteError::InvalidUserId(MatrixIdError::InvalidFormat),
                    ),
                    Some((user, dom)) => if dom != domain {
                        r matches Err(
                            UserRouteError::InvalidUserId(
                                MatrixIdError::DomainMismatch { domain: d, expected: e },
                            ),
                        ) && d@ == dom && e@ == domain
                    } else if user.len() == 0 {
                        r == Err::<UserEndpoint, UserRouteError>(
                            UserRouteError::InvalidUserId(MatrixIdError::EmptyUsername),
                        )
                    } else if user != auth_name {
                        r == Err::<UserEndpoint, UserRouteError>(UserRouteError::Forbidden)
                    } else {
                        r == Ok::<UserEndpoint, UserRouteError>(user_endpoint(s.skip(end + 1)))
                    },
                },
            }
        }
    }
}

/// Routes a request to a user endpoint for the requesting user named
/// `auth_name` on the server `matrix_domain`.
pub fn route_user_request(path: &str, auth_name: &str, matrix_domain: &str) -> (r: Result<
    UserEndpoint,
    UserRouteError,
>)
    ensures
        user_route(path@, auth_name@, matrix_domain@, r),
{
    let v = str_chars(path);
    let pre = str_chars(USER_PATH);
    if !has_prefix(&v, &pre) {
        return Err(UserRouteError::InvalidPath);
    }
    let start = pre.len();
    let end = skip_until_at(&v, start, '/');
    let ghost s = path@.skip(USER_PATH@.len() as int);
    proof {
        assert(s =~= v@.subrange(start as int, v@.len() as int));
        crate::auth::lemma_skip_until_shift(v@, start as int, '/');
    }
    if end >= v.len() {
        return Err(UserRouteError::InvalidPathFormat);
    }
    let encoded = chars_string(&v, start, end);
    assert(encoded@ =~= s.take(end - start));
    let rest = chars_string(&v, end + 1, v.len());
    assert(rest@ =~= s.skip(end - start + 1));
    let user_id = match decode_path_segment(encoded.as_str()) {
        Ok(u) => u,
        Err(_) => return Err(UserRouteError::InvalidEncoding),
    };
    let user = match parse_and_validate_matrix_user_id(user_id.as_str(), matrix_domain) {
        Ok(u) => u,
        Err(e) => return Err(UserRouteError::InvalidUserId(e)),
    };
    if !str_equal(user.as_str(), auth_name) {
        return Err(UserRouteError::Forbidden);
    }
    let r = rest.as_str();
    if str_equal(r, "filter") {
        Ok(UserEndpoint::Filter)
    } else if str_equal(r, "account_data/m.direct") {
        Ok(UserEndpoint::DirectAccountData)
    } else if str_equal(r, "account_data/m.secret_storage.default_key") {
        Ok(UserEndpoint::SecretStorageDefaultKey)
    } else {
        Ok(UserEndpoint::Unknown)
    }
}

/// The `m.direct` account data of a bot: its rooms with direct
/// conversations all map to its own user id, each replacing the one before,
/// so that only the last such room is listed.
pub open spec fn last_direct_room(rooms: Seq<Seq<char>>) -> Option<Seq<char>>
    decreases rooms.len(),
{
    if rooms.len() == 0 {
        None
    } else if is_prefix("!dm_"@, rooms.last()) {
        Some(rooms.last())
    } else {
        last_direct_room(rooms.drop_last())
    }
}

/// The room the `m.direct` account data lists for a bot with the rooms `rooms`.
pub fn direct_room(rooms: &Vec<String>) -> (r: Option<String>)
    ensures
        match r {
            Some(x) => last_direct_room(rooms@.map_values(|s: String| s@)) == Some(x@),
            None => last_direct_room(rooms@.map_values(|s: String| s@)) is None,
        },
{
    let ghost rv = rooms@.map_values(|s: String| s@);
    let dm = str_chars("!dm_");
    let mut i = rooms.len();
    assert(rv.take(i as int) =~= rv);
    while i > 0
        invariant
            i <= rooms.len(),
            rv == rooms@.map_values(|s: String| s@),
            dm@ == "!dm_"@,
            last_direct_room(rv) == last_direct_room(rv.take(i as int)),
        decreases i,
    {
        let v = str_chars(rooms[i - 1].as_str());
        assert(rv.take(i as int).last() == rooms@[i - 1]@);
        assert(rv.take(i as int).drop_last() =~= rv.take(i - 1));
        if has_prefix(&v, &dm) {
            return Some(rooms[i - 1].clone());
        }
        i -= 1;
    }
    None
}

// ----- keys -----

/// The user name of a Matrix user id: without a leading `@`, up to its first `:`.
pub open spec fn matrix_username(user_id: Seq<char>) -> Seq<char> {
    let s = if user_id.len() > 0 && user_id[0] == '@' {
        user_id.skip(1)
    } else {
        user_id
    };
    s.take(skip_until(s, 0, ':'))
}

/// The user name of a Matrix user id.
pub fn username_of(user_id: &str) -> (n: String)
    ensures
        n@ == matrix_username(user_id@),
{
    let v = str_chars(user_id);
    let start: usize = if v.len() > 0 && v[0] == '@' {
        1
    } else {
        0
    };
    let ghost s = if v@.len() > 0 && v@[0] == '@' {
        v@.skip(1)
    } else {
        v@
    };
    assert(s =~= v@.subrange(start as int, v@.len() as int));
    let i = skip_until_at(&v, start, ':');
    proof {
        crate::auth::lemma_skip_until_shift(v@, start as int, ':');
    }
    assert(s.take(i - start) =~= v@.subrange(start as int, i as int));
    chars_string(&v, start, i)
}

impl Cache {
    /// The smallest id of a user named exactly `name`.
    pub fn find_user_named(&self, name: &str) -> (r: Option<i64>)
        ensures
            first_user(self.users@, |u: CacheUser| u.name@ == name@, r),
    {
        let ghost p = |u: CacheUser| u.name@ == name@;
        for kv in it: self.users.iter()
            invariant
                p == (|u: CacheUser| u.name@ == name@),
                it.seq() == vstd::std_specs::btree::spec_btree_map_iter(&self.users).remaining(),
                vstd::std_specs::btree::increasing_seq(crate::state::iter_keys(it.seq())),
                forall|j: int| 0 <= j < it.index() ==> !p(*it.seq()[j].1),
        {
            let (uid, u) = kv;
            assert(kv == it.seq()[it.index()]);
            if str_equal(u.name.as_str(), name) {
                proof {
                    crate::state::lemma_first_in_order(&self.users, it.seq(), it.index(), p);
                    assert(self.users@.contains_key(*it.seq()[it.index()].0));
                }
                return Some(*uid);
            }
            assert(!p(*u));
        }
        proof {
            crate::state::lemma_first_in_order(
                &self.users,
                vstd::std_specs::btree::spec_btree_map_iter(&self.users).remaining(),
                vstd::std_specs::btree::spec_btree_map_iter(&self.users).remaining().len() as int,
                p,
            );
        }
        None
    }
}

/// The value of the first entry named `id`.
pub open spec fn key_lookup(keys: Seq<(String, String)>, id: Seq<char>) -> Option<Seq<char>>
    decreases keys.len(),
{
    if keys.len() == 0 {
        None
    } else if keys[0].0@ == id {
        Some(keys[0].1@)
    } else {
        key_lookup(keys.skip(1), id)
    }
}

/// A device's identity key is missing or empty.
#[derive(Debug, Clone, Copy, PartialEq, Eq)]
pub struct MissingIdentityKey;

/// The identity keys `curve25519:<device>` and `ed25519:<device>` of an
/// uploaded key set; both must be present and not empty.
pub open spec fn identity_keys_of(keys: Seq<(String, String)>, device_id: Seq<char>) -> Option<
    (Seq<char>, Seq<char>),
> {
    let curve = key_lookup(keys, "curve25519:"@ + device_id);
    let ed = key_lookup(keys, "ed25519:"@ + device_id);
    match (curve, ed) {
        (Some(c), Some(e)) => if c.len() > 0 && e.len() > 0 {
            Some((c, e))
        } else {
            None
        },
        _ => None,
    }
}

/// The value of the first entry named `id`.
fn lookup_key(keys: &Vec<(String, String)>, id: &str) -> (r: Option<String>)
    ensures
        match r {
            Some(v) => key_lookup(keys@, id@) == Some(v@),
            None => key_lookup(keys@, id@) is None,
        },
{
    let mut i: usize = 0;
    assert(keys@.skip(0) =~= keys@);
    while i < keys.len()
        invariant
            i <= keys.len(),
            key_lookup(keys@, id@) == key_lookup(keys@.skip(i as int), id@),
        decreases keys.len() - i,
    {
        assert(keys@.skip(i as int)[0] == keys@[i as int]);
        assert(keys@.skip(i as int).skip(1) =~= keys@.skip(i + 1));
        if str_equal(keys[i].0.as_str(), id) {
            return Some(keys[i].1.clone());
        }
        i += 1;
    }
    None
}

/// The Curve25519 and Ed25519 identity keys of an uploaded device key set.
pub fn identity_keys(keys: &Vec<(String, String)>, device_id: &str) -> (r: Result<
    (String, String),
    MissingIdentityKey,
>)
    ensures
        match r {
            Ok((c, e)) => identity_keys_of(keys@, device_id@) == Some((c@, e@)),
            Err(_) => identity_keys_of(keys@, device_id@) is None,
        },
{
    let mut cid = "curve25519:".to_owned();
    let mut eid = "ed25519:".to_owned();
    let d = str_chars(device_id);
    crate::text::push_chars(&mut cid, &d, 0, d.len());
    crate::text::push_chars(&mut eid, &d, 0, d.len());
    assert(d@.subrange(0, d@.len() as int) =~= d@);
    let curve = lookup_key(keys, cid.as_str());
    let ed = lookup_key(keys, eid.as_str());
    match (curve, ed) {
        (Some(c), Some(e)) => {
            if !c.as_str().is_empty() && !e.as_str().is_empty() {
                Ok((c, e))
            } else {
                Err(MissingIdentityKey)
            }
        },
        _ => Err(MissingIdentityKey),
    }
}

/// Whether the stored keys of `device` are asked for: all devices are when
/// none is named.
pub open spec fn device_asked(requested: Seq<String>, device: Seq<char>) -> bool {
    requested.len() == 0 || exists|i: int| 0 <= i < requested.len() && #[trigger] requested[i]@ == device
}

/// The stored device key sets `(device, keys)` a key query asks for, in order.
pub fn select_device_keys(requested: &Vec<String>, stored: Vec<(String, String)>) -> (r: Vec<
    (String, String),
>)
    ensures
        r@ == stored@.filter(|e: (String, String)| device_asked(requested@, e.0@)),
{
    let ghost p = |e: (String, String)| device_asked(requested@, e.0@);
    let mut r: Vec<(String, String)> = Vec::new();
    let ghost all = stored@;
    for e in it: stored.into_iter()
        invariant
            it.seq() == all,
            p == (|e: (String, String)| device_asked(requested@, e.0@)),
            r@ == all.take(it.index() as int).filter(p),
    {
        let ghost k = it.index() as int;
        assert(all.take(k + 1) =~= all.take(k).push(e));
        proof {
            all.take(k).lemma_filter_push(e, p);
        }
        let mut asked = requested.len() == 0;
        let mut j: usize = 0;
        while j < requested.len() && !asked
            invariant
                j <= requested.len(),
                asked == (requested@.len() == 0 || exists|i: int|
                    0 <= i < j && #[trigger] requested@[i]@ == e.0@),
            decreases requested.len() - j,
        {
            if str_equal(requested[j].as_str(), e.0.as_str()) {
                asked = true;
            }
            j += 1;
        }
        assert(asked == p(e));
        if asked {
            r.push(e);
        }
    }
    assert(all.take(all.len() as int) =~= all);
    r
}

/// A key query: for each Matrix user id, the devices asked for (all when
/// none is named).
#[derive(Debug, Clone)]
pub struct KeysQueryRequest {
    pub device_keys: Vec<(String, Vec<String>)>,
    pub timeout: Option<i64>,
    pub token: Option<String>,
}

/// A one-time key claim: for each Matrix user id, the algorithm asked for
/// each device.
#[derive(Debug, Clone)]
pub struct KeysClaimRequest {
    pub one_time_keys: Vec<(String, Vec<(String, String)>)>,
    pub timeout: Option<i64>,
}

/// An uploaded one-time key: the Curve25519 key in base64 and its
/// signatures, by user and then by key id.
#[derive(Debug, Clone)]
pub struct OneTimeKey {
    pub key: String,
    pub signatures: Option<Vec<(String, Vec<(String, String)>)>>,
}

/// The one-time key algorithm a claim may ask for.
pub const SIGNED_CURVE25519: &'static str = "signed_curve25519";

/// A claimed one-time key: its id, its key and its signatures as stored.
#[derive(Debug, Clone, PartialEq, Eq)]
pub struct ClaimedKey {
    pub key_id: String,
    pub key: String,
    pub signatures: Option<String>,
}

/// The key a claim for `algorithm` gets from the unused one-time key
/// `unused` of a device: that key when there is one and the algorithm is
/// `signed_curve25519`, else none (and the key stays unused).
pub fn claim_one_time_key(algorithm: &str, unused: Option<ClaimedKey>) -> (r: Option<ClaimedKey>)
    ensures
        r == (if algorithm@ == SIGNED_CURVE25519@ {
            unused
        } else {
            None
        }),
{
    if str_equal(algorithm, SIGNED_CURVE25519) {
        unused
    } else {
        None
    }
}

} // verus!
