//! The events the server sends to users' event streams, and the events that
//! follow the removal of a user.

use crate::removal::{increasing, UserRemoval};
use crate::state::{sorted_keys, Cache, CacheUser, Group, GroupAnnouncement, PinnedMessage};
use std::collections::BTreeSet;
use vstd::prelude::*;

verus! {

/// Why a device's event stream was closed.
#[derive(Debug, Clone, Copy, PartialEq, Eq)]
pub enum KickReason {
    /// The device logged out.
    Logout,
    /// The user was deleted.
    DeleteUser,
    /// The user was frozen.
    Frozen,
}

/// An event for one device of a user.
#[derive(Debug, Clone, Copy, PartialEq, Eq)]
pub enum UserEvent {
    /// Close the device's event stream.
    Kick { reason: KickReason },
}

/// Why users were removed from a group.
#[derive(Debug, Clone, Copy, PartialEq, Eq)]
pub enum KickFromGroupReason {
    GroupDeleted,
}

/// An event sent to the users `targets` (in increasing id order).
#[derive(Debug, Clone)]
pub enum BroadcastEvent {
    /// The users `uid` joined the group `gid`.
    UserJoinedGroup { targets: Vec<i64>, gid: i64, uid: Vec<i64> },
    /// The users `uid` left the group `gid`.
    UserLeavedGroup { targets: Vec<i64>, gid: i64, uid: Vec<i64> },
    /// The targets joined the group.
    JoinedGroup { targets: Vec<i64>, group: Group },
    /// The targets were removed from the group `gid`.
    KickFromGroup { targets: Vec<i64>, gid: i64, reason: KickFromGroupReason },
    /// A pinned message of the group `gid` changed, or was deleted (`None`).
    PinnedMessageUpdated { targets: Vec<i64>, gid: i64, mid: i64, msg: Option<PinnedMessage> },
    /// The announcement of the group `gid` changed.
    GroupAnnouncementChanged { gid: i64, announcement: Option<GroupAnnouncement> },
}

/// `e` removes the users `targets` from the deleted group `gid`.
pub open spec fn kick_event(e: BroadcastEvent, targets: Seq<i64>, gid: i64) -> bool {
    match e {
        BroadcastEvent::KickFromGroup { targets: t, gid: g, reason } => t@ == targets && g == gid
            && reason == KickFromGroupReason::GroupDeleted,
        _ => false,
    }
}

/// `e` tells the users `targets` that the user `uid` left the group `gid`.
pub open spec fn leave_event(e: BroadcastEvent, targets: Seq<i64>, gid: i64, uid: i64) -> bool {
    match e {
        BroadcastEvent::UserLeavedGroup { targets: t, gid: g, uid: u } => t@ == targets && g == gid
            && u@ == seq![uid],
        _ => false,
    }
}

/// The group events that announce the removal of the user `uid` described
/// by `x`, in order: each deleted group's members are removed from it; the
/// remaining members of each other private group, then all remaining users
/// for each public group, learn that the user left. A guest's removal is
/// not announced.
pub open spec fn removal_events_of(x: UserRemoval, uid: i64, r: Seq<BroadcastEvent>) -> bool {
    let d = x.deleted_groups@;
    let l = x.left_private_groups@;
    let p = x.public_groups@;
    if x.was_guest {
        r.len() == 0
    } else {
        &&& r.len() == d.len() + l.len() + p.len()
        &&& forall|k: int|
            0 <= k < d.len() ==> kick_event(#[trigger] r[k], d[k].1@, d[k].0)
        &&& forall|k: int|
            0 <= k < l.len() ==> leave_event(#[trigger] r[d.len() + k], l[k].1@, l[k].0, uid)
        &&& forall|k: int|
            0 <= k < p.len() ==> leave_event(#[trigger] r[d.len() + l.len() + k], x.remaining_users@, p[k], uid)
    }
}

/// A list holding the one user `uid`.
fn just(uid: i64) -> (v: Vec<i64>)
    ensures
        v@ == seq![uid],
{
    let mut v: Vec<i64> = Vec::new();
    v.push(uid);
    assert(v@ =~= seq![uid]);
    v
}

/// A copy of a list of ids.
fn copy_ids(v: &Vec<i64>) -> (r: Vec<i64>)
    ensures
        r@ == v@,
{
    let mut r: Vec<i64> = Vec::new();
    let mut i: usize = 0;
    while i < v.len()
        invariant
            i <= v.len(),
            r@ == v@.take(i as int),
        decreases v.len() - i,
    {
        r.push(v[i]);
        assert(r@ =~= v@.take(i + 1));
        i += 1;
    }
    assert(v@.take(v.len() as int) =~= v@);
    r
}

/// The group events that announce the removal of the user `uid`.
pub fn removal_events(x: &UserRemoval, uid: i64) -> (r: Vec<BroadcastEvent>)
    ensures
        removal_events_of(*x, uid, r@),
{
    let mut r: Vec<BroadcastEvent> = Vec::new();
    if x.was_guest {
        return r;
    }
    let ghost d = x.deleted_groups@;
    let ghost l = x.left_private_groups@;
    let ghost p = x.public_groups@;
    let mut i: usize = 0;
    while i < x.deleted_groups.len()
        invariant
            i <= d.len(),
            d == x.deleted_groups@,
            r@.len() == i,
            forall|k: int|
                0 <= k < i ==> kick_event(#[trigger] r@[k], d[k].1@, d[k].0),
        decreases d.len() - i,
    {
        let e = &x.deleted_groups[i];
        r.push(
            BroadcastEvent::KickFromGroup {
                targets: copy_ids(&e.1),
                gid: e.0,
                reason: KickFromGroupReason::GroupDeleted,
            },
        );
        i += 1;
    }
    let mut j: usize = 0;
    while j < x.left_private_groups.len()
        invariant
            j <= l.len(),
            l == x.left_private_groups@,
            r@.len() == d.len() + j,
            forall|k: int|
                0 <= k < d.len() ==> kick_event(#[trigger] r@[k], d[k].1@, d[k].0),
            forall|k: int|
                0 <= k < j ==> leave_event(#[trigger] r@[d.len() + k], l[k].1@, l[k].0, uid),
        decreases l.len() - j,
    {
        let e = &x.left_private_groups[j];
        r.push(BroadcastEvent::UserLeavedGroup { targets: copy_ids(&e.1), gid: e.0, uid: just(uid) });
        j += 1;
    }
    let mut k: usize = 0;
    while k < x.public_groups.len()
        invariant
            k <= p.len(),
            p == x.public_groups@,
            r@.len() == d.len() + l.len() + k,
            forall|a: int|
                0 <= a < d.len() ==> kick_event(#[trigger] r@[a], d[a].1@, d[a].0),
            forall|a: int|
                0 <= a < l.len() ==> leave_event(#[trigger] r@[d.len() + a], l[a].1@, l[a].0, uid),
            forall|a: int|
                0 <= a < k ==> leave_event(#[trigger] r@[d.len() + l.len() + a], x.remaining_users@, p[a], uid),
        decreases p.len() - k,
    {
        r.push(
            BroadcastEvent::UserLeavedGroup {
                targets: copy_ids(&x.remaining_users),
                gid: x.public_groups[k],
                uid: just(uid),
            },
        );
        k += 1;
    }
    r
}

// ----- webhooks -----

/// The webhook URLs of the users `ids`, in that order, that are among
/// `targets` and have a webhook.
pub open spec fn webhook_list(users: Map<i64, CacheUser>, targets: Set<i64>, ids: Seq<i64>) -> Seq<
    Seq<char>,
>
    decreases ids.len(),
{
    if ids.len() == 0 {
        Seq::empty()
    } else {
        let rest = webhook_list(users, targets, ids.drop_last());
        let uid = ids.last();
        if targets.contains(uid) && users.contains_key(uid) {
            match users[uid].webhook_url {
                Some(u) => rest.push(u@),
                None => rest,
            }
        } else {
            rest
        }
    }
}

impl Cache {
    /// The webhook URLs a chat message to `targets` is forwarded to: those of
    /// the target users that have one, in the order of their ids.
    pub fn webhook_urls(&self, targets: &BTreeSet<i64>) -> (r: Vec<String>)
        ensures
            exists|ids: Seq<i64>|
                {
                    &&& increasing(ids)
                    &&& ids.to_set() == self.users@.dom()
                    &&& r@.map_values(|u: String| u@) == #[trigger] webhook_list(
                        self.users@,
                        targets@,
                        ids,
                    )
                },
    {
        let ids = sorted_keys(&self.users);
        let mut out: Vec<String> = Vec::new();
        let mut i: usize = 0;
        assert(ids@.take(0) =~= Seq::<i64>::empty());
        assert(out@.map_values(|u: String| u@) =~= Seq::<Seq<char>>::empty());
        while i < ids.len()
            invariant
                i <= ids.len(),
                out@.map_values(|u: String| u@) == webhook_list(
                    self.users@,
                    targets@,
                    ids@.take(i as int),
                ),
            decreases ids.len() - i,
        {
            let uid = ids[i];
            let ghost before = out@;
            assert(ids@.take(i + 1).drop_last() =~= ids@.take(i as int));
            assert(ids@.take(i + 1).last() == uid);
            if targets.contains(&uid) {
                if let Some(u) = self.users.get(&uid) {
                    if let Some(url) = &u.webhook_url {
                        out.push(url.clone());
                        assert(out@.map_values(|u: String| u@) =~= before.map_values(
                            |u: String| u@,
                        ).push(url@));
                    }
                }
            }
            i += 1;
        }
        assert(ids@.take(ids.len() as int) =~= ids@);
        assert(increasing(ids@));
        out
    }
}

} // verus!
