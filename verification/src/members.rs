//! The members of a Matrix room, as the member list and joined-member
//! endpoints present them.

use crate::num::{format_i64, format_u64, int_text, nat_text, parse_i64, parse_i64_spec};
use crate::rooms::{chars_text, strip_suffix, strip_suffix_chars};
use crate::state::{member_list, Cache, CacheUser};
use crate::text::{has_prefix, is_prefix, push_chars, split_chars, split_on, str_chars};
use vstd::prelude::*;

verus! {

broadcast use vstd::std_specs::btree::group_btree_axioms;

/// Why the members of a room could not be listed.
#[derive(Debug, Clone, Copy, PartialEq, Eq)]
pub enum RoomMembersError {
    InvalidDmFormat,
    /// A user id of a direct conversation is not a number.
    InvalidUid,
    InvalidGroupFormat,
    InvalidGid,
    /// No such group.
    RoomNotFound,
    UnknownFormat,
}

/// A member of a room: its position among the room's users, its id, its
/// display name, its Matrix user id, its avatar and the id of its member event.
#[derive(Debug, Clone)]
pub struct RoomMember {
    pub index: usize,
    pub uid: i64,
    pub display_name: String,
    pub user_id: String,
    pub avatar_url: String,
    pub event_id: String,
}

/// The users a room holds by its id: the two users of a direct conversation
/// `!dm_<a>_<b>:<domain>`, or a group `!group_<gid>:<domain>`.
pub enum RoomUsers {
    Direct(i64, i64),
    Group(i64),
}

/// What the id of a room names.
pub open spec fn room_users(room_id: Seq<char>, domain: Seq<char>) -> Result<RoomUsers, RoomMembersError> {
    let suffix = ":"@ + domain;
    if is_prefix("!dm_"@, room_id) {
        match strip_suffix(room_id.skip("!dm_"@.len() as int), suffix) {
            None => Err(RoomMembersError::InvalidDmFormat),
            Some(part) => {
                let parts = split_on(part, '_');
                if parts.len() != 2 {
                    Err(RoomMembersError::InvalidDmFormat)
                } else {
                    match (parse_i64_spec(parts[0]), parse_i64_spec(parts[1])) {
                        (Some(a), Some(b)) => Ok(RoomUsers::Direct(a, b)),
                        _ => Err(RoomMembersError::InvalidUid),
                    }
                }
            },
        }
    } else if is_prefix("!group_"@, room_id) {
        match strip_suffix(room_id.skip("!group_"@.len() as int), suffix) {
            None => Err(RoomMembersError::InvalidGroupFormat),
            Some(g) => match parse_i64_spec(g) {
                None => Err(RoomMembersError::InvalidGid),
                Some(gid) => Ok(RoomUsers::Group(gid)),
            },
        }
    } else {
        Err(RoomMembersError::UnknownFormat)
    }
}

/// The room id with each `:` made `_` and each `!` dropped.
pub open spec fn event_base(room_id: Seq<char>) -> Seq<char>
    decreases room_id.len(),
{
    if room_id.len() == 0 {
        Seq::empty()
    } else {
        let rest = event_base(room_id.drop_last());
        let c = room_id.last();
        if c == ':' {
            rest.push('_')
        } else if c == '!' {
            rest
        } else {
            rest.push(c)
        }
    }
}

/// The positions of the ids that are users, in order.
pub open spec fn kept(ids: Seq<i64>, users: Map<i64, CacheUser>) -> Seq<int>
    decreases ids.len(),
{
    if ids.len() == 0 {
        Seq::empty()
    } else {
        let k = kept(ids.drop_last(), users);
        if users.contains_key(ids.last()) {
            k.push(ids.len() - 1)
        } else {
            k
        }
    }
}

/// `m` is the member at position `idx` of the room, the user `uid` named `name`.
pub open spec fn member_is(
    m: RoomMember,
    idx: int,
    uid: i64,
    name: Seq<char>,
    room_id: Seq<char>,
    domain: Seq<char>,
) -> bool {
    &&& m.index == idx
    &&& m.uid == uid
    &&& m.display_name@ == name
    &&& m.user_id@ == "@"@ + name + ":"@ + domain
    &&& m.avatar_url@ == "mxc://"@ + domain + "/avatar/"@ + int_text(uid as int)
    &&& m.event_id@ == "$"@ + event_base(room_id) + "_"@ + nat_text(idx as nat)
}

/// `members` lists, in order, the ids among `ids` that are users.
pub open spec fn members_of(
    members: Seq<RoomMember>,
    ids: Seq<i64>,
    users: Map<i64, CacheUser>,
    room_id: Seq<char>,
    domain: Seq<char>,
) -> bool {
    let k = kept(ids, users);
    &&& members.len() == k.len()
    &&& forall|j: int|
        0 <= j < members.len() ==> member_is(
            #[trigger] members[j],
            k[j],
            ids[k[j]],
            users[ids[k[j]]].name@,
            room_id,
            domain,
        )
}

/// The event base of a room id.
fn room_event_base(room_id: &Vec<char>) -> (r: String)
    ensures
        r@ == event_base(room_id@),
{
    let mut r = String::new();
    let mut i: usize = 0;
    while i < room_id.len()
        invariant
            i <= room_id.len(),
            r@ == event_base(room_id@.take(i as int)),
        decreases room_id.len() - i,
    {
        let c = room_id[i];
        assert(room_id@.take(i + 1).drop_last() =~= room_id@.take(i as int));
        if c == ':' {
            crate::text::push_char(&mut r, '_');
        } else if c != '!' {
            crate::text::push_char(&mut r, c);
        }
        i += 1;
    }
    assert(room_id@.take(room_id.len() as int) =~= room_id@);
    r
}

/// Appends the characters of `v` to `s`.
fn append(s: &mut String, v: &Vec<char>)
    ensures
        final(s)@ == old(s)@ + v@,
{
    push_chars(s, v, 0, v.len());
    assert(v@.subrange(0, v@.len() as int) =~= v@);
}

/// The member at position `idx` of the room, the user `uid`.
fn room_member(
    idx: usize,
    uid: i64,
    user: &CacheUser,
    base: &String,
    domain: &Vec<char>,
    room_id: Ghost<Seq<char>>,
) -> (m: RoomMember)
    requires
        base@ == event_base(room_id@),
    ensures
        member_is(m, idx as int, uid, user.name@, room_id@, domain@),
{
    let name = str_chars(user.name.as_str());
    let mut user_id = "@".to_owned();
    append(&mut user_id, &name);
    append(&mut user_id, &str_chars(":"));
    append(&mut user_id, domain);
    let mut avatar_url = "mxc://".to_owned();
    append(&mut avatar_url, domain);
    append(&mut avatar_url, &str_chars("/avatar/"));
    append(&mut avatar_url, &format_i64(uid));
    let mut event_id = "$".to_owned();
    append(&mut event_id, &str_chars(base.as_str()));
    append(&mut event_id, &str_chars("_"));
    append(&mut event_id, &format_u64(idx as u64));
    RoomMember {
        index: idx,
        uid,
        display_name: user.name.clone(),
        user_id,
        avatar_url,
        event_id,
    }
}

/// The members of a room among the ids `ids`, in order.
fn members_among(
    cache: &Cache,
    ids: &Vec<i64>,
    base: &String,
    domain: &Vec<char>,
    room_id: Ghost<Seq<char>>,
) -> (r: Vec<RoomMember>)
    requires
        base@ == event_base(room_id@),
    ensures
        members_of(r@, ids@, cache.users@, room_id@, domain@),
{
    let mut r: Vec<RoomMember> = Vec::new();
    let mut i: usize = 0;
    while i < ids.len()
        invariant
            i <= ids.len(),
            base@ == event_base(room_id@),
            members_of(r@, ids@.take(i as int), cache.users@, room_id@, domain@),
        decreases ids.len() - i,
    {
        let uid = ids[i];
        let ghost before = ids@.take(i as int);
        let ghost after = ids@.take(i + 1);
        assert(after.drop_last() =~= before);
        assert(forall|j: int| 0 <= j < i ==> after[j] == before[j]);
        let ghost k0 = kept(before, cache.users@);
        assert(forall|j: int| 0 <= j < k0.len() ==> 0 <= #[trigger] k0[j] < before.len()) by {
            lemma_kept_bounds(before, cache.users@);
        }
        let ghost r0 = r@;
        match cache.users.get(&uid) {
            Some(user) => {
                let m = room_member(i, uid, user, base, domain, room_id);
                r.push(m);
                assert(kept(after, cache.users@) == k0.push(i as int));
                assert forall|j: int| 0 <= j < r@.len() implies member_is(
                    #[trigger] r@[j],
                    kept(after, cache.users@)[j],
                    after[kept(after, cache.users@)[j]],
                    cache.users@[after[kept(after, cache.users@)[j]]].name@,
                    room_id@,
                    domain@,
                ) by {
                    if j < r0.len() {
                        assert(r@[j] == r0[j]);
                    }
                }
            },
            None => {
                assert(kept(after, cache.users@) == k0);
            },
        }
        i += 1;
    }
    assert(ids@.take(ids.len() as int) =~= ids@);
    r
}

/// The positions kept are positions of the ids.
proof fn lemma_kept_bounds(ids: Seq<i64>, users: Map<i64, CacheUser>)
    ensures
        forall|j: int| 0 <= j < kept(ids, users).len() ==> 0 <= #[trigger] kept(ids, users)[j] < ids.len(),
    decreases ids.len(),
{
    if ids.len() > 0 {
        lemma_kept_bounds(ids.drop_last(), users);
        let k = kept(ids.drop_last(), users);
        if users.contains_key(ids.last()) {
            assert(kept(ids, users) == k.push(ids.len() - 1));
        } else {
            assert(kept(ids, users) == k);
        }
    }
}

/// `r` is the member list of the room `room_id`: an error when the id names
/// no room or no existing group; the two users of a direct conversation; the
/// members of a group in increasing id order.
pub open spec fn members_result(
    cache: &Cache,
    room_id: Seq<char>,
    domain: Seq<char>,
    r: Result<Vec<RoomMember>, RoomMembersError>,
) -> bool {
    match room_users(room_id, domain) {
        Err(e) => r == Err::<Vec<RoomMember>, RoomMembersError>(e),
        Ok(RoomUsers::Direct(a, b)) => match r {
            Ok(m) => members_of(m@, seq![a, b], cache.users@, room_id, domain),
            Err(_) => false,
        },
        Ok(RoomUsers::Group(gid)) => if cache.groups@.contains_key(gid) {
            match r {
                Ok(m) => exists|ids: Seq<i64>|
                    #![trigger members_of(m@, ids, cache.users@, room_id, domain)]
                    crate::removal::increasing(ids) && ids.to_set() == cache.groups@[gid].members@
                        && members_of(m@, ids, cache.users@, room_id, domain),
                Err(_) => false,
            }
        } else {
            r == Err::<Vec<RoomMember>, RoomMembersError>(RoomMembersError::RoomNotFound)
        },
    }
}

/// The members of a room by its id, in the order of its users: the two users
/// of a direct conversation, or the members of a group in increasing id
/// order; ids that are no user are skipped but keep their position.
pub fn room_members(cache: &Cache, room_id: &str, matrix_domain: &str) -> (r: Result<
    Vec<RoomMember>,
    RoomMembersError,
>)
    ensures
        members_result(cache, room_id@, matrix_domain@, r),
{
    let v = str_chars(room_id);
    let mut suffix = ":".to_owned();
    let d = str_chars(matrix_domain);
    append(&mut suffix, &d);
    let sv = str_chars(suffix.as_str());
    let dm = str_chars("!dm_");
    let group = str_chars("!group_");
    let base = room_event_base(&v);
    if has_prefix(&v, &dm) {
        let part = match strip_suffix_chars(&v, dm.len(), &sv) {
            Some(p) => p,
            None => return Err(RoomMembersError::InvalidDmFormat),
        };
        let parts = split_chars(&part, '_');
        if parts.len() != 2 {
            return Err(RoomMembersError::InvalidDmFormat);
        }
        let a = parse_i64(chars_text(&parts[0]).as_str());
        let b = parse_i64(chars_text(&parts[1]).as_str());
        match (a, b) {
            (Some(a), Some(b)) => {
                let mut ids: Vec<i64> = Vec::new();
                ids.push(a);
                ids.push(b);
                assert(ids@ =~= seq![a, b]);
                assert(room_users(room_id@, matrix_domain@) == Ok::<RoomUsers, RoomMembersError>(
                    RoomUsers::Direct(a, b),
                ));
                let m = members_among(cache, &ids, &base, &d, Ghost(room_id@));
                assert(members_result(cache, room_id@, matrix_domain@, Ok(m)));
                Ok(m)
            },
            _ => {
                assert(room_users(room_id@, matrix_domain@) == Err::<RoomUsers, RoomMembersError>(
                    RoomMembersError::InvalidUid,
                ));
                Err(RoomMembersError::InvalidUid)
            },
        }
    } else if has_prefix(&v, &group) {
        let g = match strip_suffix_chars(&v, group.len(), &sv) {
            Some(p) => p,
            None => return Err(RoomMembersError::InvalidGroupFormat),
        };
        let gid = match parse_i64(chars_text(&g).as_str()) {
            Some(gid) => gid,
            None => return Err(RoomMembersError::InvalidGid),
        };
        match cache.groups.get(&gid) {
            Some(grp) => {
                let ids = member_list(&grp.members);
                let m = members_among(cache, &ids, &base, &d, Ghost(room_id@));
                assert(crate::removal::increasing(ids@));
                assert(members_of(m@, ids@, cache.users@, room_id@, matrix_domain@));
                assert(ids@.to_set() == cache.groups@[gid].members@);
                assert(room_users(room_id@, matrix_domain@) == Ok::<RoomUsers, RoomMembersError>(
                    RoomUsers::Group(gid),
                ));
                let r: Result<Vec<RoomMember>, RoomMembersError> = Ok(m);
                assert(r->Ok_0 == m);
                assert(exists|q: Seq<i64>|
                    #![trigger members_of(r->Ok_0@, q, cache.users@, room_id@, matrix_domain@)]
                    crate::removal::increasing(q) && q.to_set() == cache.groups@[gid].members@
                        && members_of(r->Ok_0@, q, cache.users@, room_id@, matrix_domain@));
                r
            },
            None => {
                assert(room_users(room_id@, matrix_domain@) == Ok::<RoomUsers, RoomMembersError>(
                    RoomUsers::Group(gid),
                ));
                Err(RoomMembersError::RoomNotFound)
            },
        }
    } else {
        assert(room_users(room_id@, matrix_domain@) == Err::<RoomUsers, RoomMembersError>(
            RoomMembersError::UnknownFormat,
        ));
        Err(RoomMembersError::UnknownFormat)
    }
}

} // verus!
