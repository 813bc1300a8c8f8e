//! Removing a user from the cache: the private groups it owns are deleted,
//! it leaves the other groups, and the other users forget their
//! conversations with it and with the deleted groups.

use crate::state::{member_list, sorted_keys, Cache, CacheGroup, CacheUser, GroupType};
use std::collections::BTreeMap;
use vstd::prelude::*;

verus! {

broadcast use {vstd::std_specs::hash::group_hash_axioms, vstd::std_specs::btree::group_btree_axioms};

/// What removing a user changed, for the announcements that follow it.
/// Each list is in increasing id order, and each member list too.
pub struct UserRemoval {
    /// Whether the removed user was a guest.
    pub was_guest: bool,
    /// The private groups the user owned, now deleted, with their members.
    pub deleted_groups: Vec<(i64, Vec<i64>)>,
    /// The other private groups, with the members that remain.
    pub left_private_groups: Vec<(i64, Vec<i64>)>,
    /// The public groups.
    pub public_groups: Vec<i64>,
    /// The users that remain.
    pub remaining_users: Vec<i64>,
}

/// Whether a group is a private group owned by `uid`.
pub open spec fn owned_by(g: CacheGroup, uid: i64) -> bool {
    g.ty == GroupType::Private { owner: uid }
}

/// The private groups owned by `uid`.
pub open spec fn owned_groups(groups: Map<i64, CacheGroup>, uid: i64) -> Set<i64> {
    groups.dom().filter(|gid: i64| owned_by(groups[gid], uid))
}

/// The group `g` after `uid` left it: a private group loses the member.
pub open spec fn group_left(g: CacheGroup, uid: i64, new: CacheGroup) -> bool {
    &&& new == (CacheGroup { members: new.members, ..g })
    &&& new.members@ == (if g.ty is Public {
        g.members@
    } else {
        g.members@.remove(uid)
    })
}

/// The groups after the removal of `uid`: the private groups it owned are
/// gone, and it left the others.
pub open spec fn groups_after_removal(groups: Map<i64, CacheGroup>, uid: i64, new: Map<i64, CacheGroup>) -> bool {
    &&& forall|gid: i64|
        new.contains_key(gid) <==> groups.contains_key(gid) && !owned_by(groups[gid], uid)
    &&& forall|gid: i64| #[trigger] new.contains_key(gid) ==> group_left(groups[gid], uid, new[gid])
}

/// The user `u` after forgetting the user `uid` and the groups `gone`: its
/// read positions and pinned chats for them are dropped, nothing else changes.
pub open spec fn user_forgets(u: CacheUser, uid: i64, gone: Set<i64>, new: CacheUser) -> bool {
    &&& new == (CacheUser {
        read_index_user: new.read_index_user,
        read_index_group: new.read_index_group,
        pinned_chat_user: new.pinned_chat_user,
        pinned_chat_group: new.pinned_chat_group,
        ..u
    })
    &&& new.read_index_user@ == u.read_index_user@.remove(uid)
    &&& new.pinned_chat_user@ == u.pinned_chat_user@.remove(uid)
    &&& new.read_index_group@ == u.read_index_group@.remove_keys(gone)
    &&& new.pinned_chat_group@ == u.pinned_chat_group@.difference(gone)
}

/// Ids in strictly increasing order.
pub open spec fn increasing(ids: Seq<i64>) -> bool {
    forall|i: int, j: int| 0 <= i < j < ids.len() ==> ids[i] < ids[j]
}

/// The ids of a list of groups with members.
pub open spec fn list_ids(list: Seq<(i64, Vec<i64>)>) -> Seq<i64> {
    list.map_values(|e: (i64, Vec<i64>)| e.0)
}

/// `list` holds the groups `ids` in increasing order, each with the members
/// `members(gid)` in increasing order.
pub open spec fn group_list(list: Seq<(i64, Vec<i64>)>, ids: Set<i64>, members: spec_fn(i64) -> Set<i64>) -> bool {
    &&& increasing(list_ids(list))
    &&& list_ids(list).to_set() == ids
    &&& forall|i: int|
        0 <= i < list.len() ==> (#[trigger] list[i]).1@.to_set() == members(list[i].0) && increasing(
            list[i].1@,
        )
}

/// The cache `new` and the report `x` are what removing the user `uid` from
/// `c` gives.
pub open spec fn removal_done(c: Cache, uid: i64, new: Cache, x: UserRemoval) -> bool {
    let gone = owned_groups(c.groups@, uid);
    &&& x.was_guest == c.users@[uid].is_guest
    &&& groups_after_removal(c.groups@, uid, new.groups@)
    &&& new.users@.dom() == c.users@.dom().remove(uid)
    &&& forall|u: i64| #[trigger]
        new.users@.contains_key(u) ==> user_forgets(c.users@[u], uid, gone, new.users@[u])
    &&& group_list(x.deleted_groups@, gone, |gid: i64| c.groups@[gid].members@)
    &&& group_list(
        x.left_private_groups@,
        c.groups@.dom().filter(
            |gid: i64| c.groups@[gid].ty is Private && !owned_by(c.groups@[gid], uid),
        ),
        |gid: i64| new.groups@[gid].members@,
    )
    &&& increasing(x.public_groups@)
    &&& x.public_groups@.to_set() == c.groups@.dom().filter(|gid: i64| c.groups@[gid].ty is Public)
    &&& increasing(x.remaining_users@)
    &&& x.remaining_users@.to_set() == new.users@.dom()
}

impl CacheUser {
    /// Drops the read positions and pinned chats of the user `uid` and of the groups `gids`.
    fn forget(&mut self, uid: i64, gids: &Vec<i64>)
        ensures
            user_forgets(*old(self), uid, gids@.to_set(), *final(self)),
    {
        self.read_index_user.remove(&uid);
        self.pinned_chat_user.remove(&uid);
        let ghost ri = self.read_index_group@;
        let ghost pc = self.pinned_chat_group@;
        let mut k: usize = 0;
        while k < gids.len()
            invariant
                k <= gids.len(),
                self.read_index_group@ == ri.remove_keys(gids@.take(k as int).to_set()),
                self.pinned_chat_group@ == pc.difference(gids@.take(k as int).to_set()),
                self.read_index_user@ == old(self).read_index_user@.remove(uid),
                self.pinned_chat_user@ == old(self).pinned_chat_user@.remove(uid),
                ri == old(self).read_index_group@,
                pc == old(self).pinned_chat_group@,
                *self == (CacheUser {
                    read_index_user: self.read_index_user,
                    read_index_group: self.read_index_group,
                    pinned_chat_user: self.pinned_chat_user,
                    pinned_chat_group: self.pinned_chat_group,
                    ..*old(self)
                }),
            decreases gids.len() - k,
        {
            let gid = gids[k];
            self.read_index_group.remove(&gid);
            self.pinned_chat_group.remove(&gid);
            assert(gids@.take(k + 1).to_set() =~= gids@.take(k as int).to_set().insert(gid)) by {
                assert(gids@.take(k + 1) =~= gids@.take(k as int).push(gid));
                gids@.take(k as int).lemma_push_to_set_commute(gid);
            }
            assert(self.read_index_group@ =~= ri.remove_keys(gids@.take(k + 1).to_set()));
            assert(self.pinned_chat_group@ =~= pc.difference(gids@.take(k + 1).to_set()));
            k += 1;
        }
        assert(gids@.take(gids.len() as int) =~= gids@);
    }
}

/// What removing a user does to one group.
enum GroupOutcome {
    /// A public group, left as it is.
    Public,
    /// A private group the user owned, deleted; its members.
    Deleted(Vec<i64>),
    /// A private group the user left; the members that remain.
    Left(Vec<i64>),
}

/// Takes the user `uid` out of the group `gid`.
fn remove_from_group(groups: &mut BTreeMap<i64, CacheGroup>, gid: i64, uid: i64) -> (o: GroupOutcome)
    requires
        old(groups)@.contains_key(gid),
    ensures
        match o {
            GroupOutcome::Public => old(groups)@[gid].ty is Public && final(groups)@ == old(
                groups,
            )@,
            GroupOutcome::Deleted(m) => owned_by(old(groups)@[gid], uid) && final(groups)@ == old(
                groups,
            )@.remove(gid) && m@.to_set() == old(groups)@[gid].members@ && increasing(m@),
            GroupOutcome::Left(m) => old(groups)@[gid].ty is Private && !owned_by(
                old(groups)@[gid],
                uid,
            ) && final(groups)@.dom() == old(groups)@.dom() && (forall|x: i64|
                x != gid && #[trigger] final(groups)@.contains_key(x) ==> final(groups)@[x] == old(
                    groups,
                )@[x]) && group_left(old(groups)@[gid], uid, final(groups)@[gid])
                && m@.to_set() == final(groups)@[gid].members@ && increasing(m@),
        },
{
    let g = groups.remove(&gid).unwrap();
    match g.ty {
        GroupType::Public => {
            groups.insert(gid, g);
            assert(groups@ =~= old(groups)@);
            GroupOutcome::Public
        },
        GroupType::Private { owner } => {
            if owner == uid {
                GroupOutcome::Deleted(member_list(&g.members))
            } else {
                let mut g = g;
                g.members.remove(&uid);
                let m = member_list(&g.members);
                groups.insert(gid, g);
                assert(groups@.dom() =~= old(groups)@.dom());
                GroupOutcome::Left(m)
            }
        },
    }
}

/// The elements of `ids` with `p`, as a set, grow by `x` when `x` is pushed.
proof fn lemma_push_contains(ids: Seq<i64>, x: i64)
    ensures
        forall|y: i64| #[trigger] ids.push(x).contains(y) <==> (ids.contains(y) || y == x),
{
    assert forall|y: i64| #[trigger] ids.push(x).contains(y) <==> (ids.contains(y) || y == x) by {
        if y == x {
            assert(ids.push(x)[ids.len() as int] == x);
        }
        if ids.contains(y) {
            let k = choose|k: int| 0 <= k < ids.len() && ids[k] == y;
            assert(ids.push(x)[k] == y);
        }
        if ids.push(x).contains(y) {
            let k = choose|k: int| 0 <= k < ids.len() + 1 && #[trigger] ids.push(x)[k] == y;
            if k < ids.len() {
                assert(ids[k] == y);
            }
        }
    }
}

/// The first `i + 1` ids are the first `i` and the one at `i`.
proof fn lemma_take_next(ids: Seq<i64>, i: int)
    requires
        0 <= i < ids.len(),
    ensures
        ids.take(i + 1) == ids.take(i).push(ids[i]),
        forall|y: i64| #[trigger] ids.take(i + 1).contains(y) <==> (ids.take(i).contains(y) || y == ids[i]),
{
    assert(ids.take(i + 1) =~= ids.take(i).push(ids[i]));
    lemma_push_contains(ids.take(i), ids[i]);
}

/// Pushing an id larger than all keeps a list increasing.
proof fn lemma_push_increasing(ids: Seq<i64>, x: i64)
    requires
        increasing(ids),
        forall|k: int| 0 <= k < ids.len() ==> ids[k] < x,
    ensures
        increasing(ids.push(x)),
{
}

/// Every user of the map forgets the user `uid` and the groups `gids`.
fn forget_everywhere(users: &mut BTreeMap<i64, CacheUser>, uid: i64, gids: &Vec<i64>) -> (ids: Vec<i64>)
    ensures
        final(users)@.dom() == old(users)@.dom(),
        forall|u: i64| #[trigger]
            final(users)@.contains_key(u) ==> user_forgets(
                old(users)@[u],
                uid,
                gids@.to_set(),
                final(users)@[u],
            ),
        ids@.to_set() == old(users)@.dom(),
        increasing(ids@),
{
    let ids = sorted_keys(users);
    let mut j: usize = 0;
    while j < ids.len()
        invariant
            j <= ids.len(),
            ids@.to_set() == old(users)@.dom(),
            increasing(ids@),
            users@.dom() == old(users)@.dom(),
            forall|u: i64| #[trigger]
                users@.contains_key(u) ==> if ids@.take(j as int).contains(u) {
                    user_forgets(old(users)@[u], uid, gids@.to_set(), users@[u])
                } else {
                    users@[u] == old(users)@[u]
                },
        decreases ids.len() - j,
    {
        let u = ids[j];
        proof {
            lemma_take_next(ids@, j as int);
            assert(ids@.contains(u));
            assert(!ids@.take(j as int).contains(u)) by {
                if ids@.take(j as int).contains(u) {
                    let k = choose|k: int| 0 <= k < j && ids@.take(j as int)[k] == u;
                    assert(ids@[k] < ids@[j as int]);
                }
            }
        }
        let ghost before = users@;
        let mut user = users.remove(&u).unwrap();
        user.forget(uid, gids);
        users.insert(u, user);
        assert(users@.dom() =~= before.dom());
        j += 1;
    }
    assert(ids@.take(ids.len() as int) =~= ids@);
    assert forall|u: i64| #[trigger] users@.contains_key(u) implies user_forgets(
        old(users)@[u],
        uid,
        gids@.to_set(),
        users@[u],
    ) by {
        assert(ids@.to_set().contains(u));
    }
    ids
}

/// The lists of groups so far, after the first `i` ids of `gids` were
/// processed for the removal of `uid` from the groups `g0`.
pub open spec fn lists_so_far(
    gids: Seq<i64>,
    i: int,
    g0: Map<i64, CacheGroup>,
    uid: i64,
    groups: Map<i64, CacheGroup>,
    deleted: Seq<(i64, Vec<i64>)>,
    left: Seq<(i64, Vec<i64>)>,
    public: Seq<i64>,
) -> bool {
    let done = gids.take(i);
    &&& forall|gid: i64|
        groups.contains_key(gid) <==> g0.contains_key(gid) && !(done.contains(gid) && owned_by(
            g0[gid],
            uid,
        ))
    &&& forall|gid: i64| #[trigger]
        groups.contains_key(gid) ==> if done.contains(gid) {
            group_left(g0[gid], uid, groups[gid])
        } else {
            groups[gid] == g0[gid]
        }
    &&& increasing(list_ids(deleted))
    &&& forall|gid: i64|
        list_ids(deleted).contains(gid) <==> done.contains(gid) && owned_by(g0[gid], uid)
    &&& forall|k: int|
        0 <= k < deleted.len() ==> (#[trigger] deleted[k]).1@.to_set() == g0[deleted[k].0].members@
            && increasing(deleted[k].1@)
    &&& increasing(list_ids(left))
    &&& forall|gid: i64|
        list_ids(left).contains(gid) <==> done.contains(gid) && g0[gid].ty is Private && !owned_by(
            g0[gid],
            uid,
        )
    &&& forall|k: int|
        0 <= k < left.len() ==> (#[trigger] left[k]).1@.to_set() == groups[left[k].0].members@
            && increasing(left[k].1@)
    &&& increasing(public)
    &&& forall|gid: i64| public.contains(gid) <==> done.contains(gid) && g0[gid].ty is Public
}

impl Cache {
    /// Removes the user `uid` from the cache: `None`, and nothing changes,
    /// when there is no such user. Otherwise the private groups it owned are
    /// deleted, it leaves the other private groups, and the remaining users
    /// forget it and the deleted groups.
    #[verifier::spinoff_prover]
    #[verifier::rlimit(40)]
    pub fn remove_user(&mut self, uid: i64) -> (r: Option<UserRemoval>)
        ensures
            !old(self).users@.contains_key(uid) ==> r is None && *final(self) == *old(self),
            old(self).users@.contains_key(uid) ==> (r matches Some(x) && removal_done(
                *old(self),
                uid,
                *final(self),
                x,
            )),
    {
        if !self.users.contains_key(&uid) {
            return None;
        }
        let removed = self.users.remove(&uid).unwrap();
        let ghost g0 = self.groups@;
        let ghost users0 = self.users@;
        assert(users0 == old(self).users@.remove(uid));
        let gids = sorted_keys(&self.groups);
        let mut deleted: Vec<(i64, Vec<i64>)> = Vec::new();
        let mut deleted_ids: Vec<i64> = Vec::new();
        let mut left: Vec<(i64, Vec<i64>)> = Vec::new();
        let mut public: Vec<i64> = Vec::new();
        let mut i: usize = 0;
        assert(gids@.take(0) =~= Seq::<i64>::empty());
        while i < gids.len()
            invariant
                i <= gids.len(),
                gids@.to_set() == g0.dom(),
                increasing(gids@),
                deleted_ids@ == list_ids(deleted@),
                self.users@ == users0,
                lists_so_far(gids@, i as int, g0, uid, self.groups@, deleted@, left@, public@),
            decreases gids.len() - i,
        {
            let gid = gids[i];
            let ghost before = gids@.take(i as int);
            let ghost gr = self.groups@;
            let ghost dl = deleted@;
            let ghost ll = left@;
            let ghost pb = public@;
            proof {
                lemma_take_next(gids@, i as int);
                assert(gids@.contains(gid));
                assert(!before.contains(gid)) by {
                    if before.contains(gid) {
                        let k = choose|k: int| 0 <= k < i && before[k] == gid;
                        assert(gids@[k] < gids@[i as int]);
                    }
                }
                assert forall|y: i64| before.contains(y) implies y < gid && gids@.contains(y) by {
                    let k = choose|k: int| 0 <= k < i && before[k] == y;
                    assert(gids@[k] < gids@[i as int]);
                    assert(gids@[k] == y);
                }
            }
            match remove_from_group(&mut self.groups, gid, uid) {
                GroupOutcome::Public => {
                    public.push(gid);
                    proof {
                        lemma_push_contains(pb, gid);
                        assert forall|k: int| 0 <= k < pb.len() implies pb[k] < gid by {
                            assert(pb.contains(pb[k]));
                        }
                        lemma_push_increasing(pb, gid);
                        assert(list_ids(deleted@) == list_ids(dl));
                        assert(list_ids(left@) == list_ids(ll));
                    }
                },
                GroupOutcome::Deleted(m) => {
                    deleted.push((gid, m));
                    deleted_ids.push(gid);
                    proof {
                        assert(list_ids(deleted@) =~= list_ids(dl).push(gid));
                        lemma_push_contains(list_ids(dl), gid);
                        assert forall|k: int| 0 <= k < dl.len() implies list_ids(dl)[k] < gid by {
                            assert(list_ids(dl).contains(list_ids(dl)[k]));
                            assert(before.contains(list_ids(dl)[k]));
                        }
                        lemma_push_increasing(list_ids(dl), gid);
                        assert forall|k: int| 0 <= k < dl.len() implies deleted@[k] == dl[k] by {}
                        assert forall|k: int| 0 <= k < ll.len() implies (#[trigger] ll[k]).1@.to_set()
                            == self.groups@[ll[k].0].members@ by {
                            assert(list_ids(ll)[k] == ll[k].0);
                            assert(list_ids(ll).contains(ll[k].0));
                        }
                        assert(list_ids(left@) == list_ids(ll));
                    }
                },
                GroupOutcome::Left(m) => {
                    left.push((gid, m));
                    proof {
                        assert(list_ids(left@) =~= list_ids(ll).push(gid));
                        lemma_push_contains(list_ids(ll), gid);
                        assert forall|k: int| 0 <= k < ll.len() implies list_ids(ll)[k] < gid by {
                            assert(list_ids(ll).contains(list_ids(ll)[k]));
                            assert(before.contains(list_ids(ll)[k]));
                        }
                        lemma_push_increasing(list_ids(ll), gid);
                        assert forall|k: int| 0 <= k < ll.len() implies left@[k] == ll[k] by {}
                        assert forall|k: int| 0 <= k < ll.len() implies (#[trigger] ll[k]).1@.to_set()
                            == self.groups@[ll[k].0].members@ by {
                            assert(list_ids(ll)[k] == ll[k].0);
                            assert(list_ids(ll).contains(ll[k].0));
                            assert(before.contains(ll[k].0));
                            assert(gids@.to_set().contains(ll[k].0));
                            assert(gr.contains_key(ll[k].0));
                            assert(ll[k].0 != gid);
                            assert(self.groups@.contains_key(ll[k].0));
                        }
                        assert(list_ids(deleted@) == list_ids(dl));
                    }
                },
            }
            i += 1;
        }
        proof {
            assert(gids@.take(gids.len() as int) =~= gids@);
            assert forall|gid: i64| g0.dom().contains(gid) <==> gids@.contains(gid) by {
                assert(gids@.to_set().contains(gid) == gids@.contains(gid));
            }
        }
        let ghost users1 = self.users@;
        let ids = forget_everywhere(&mut self.users, uid, &deleted_ids);
        let x = UserRemoval {
            was_guest: removed.is_guest,
            deleted_groups: deleted,
            left_private_groups: left,
            public_groups: public,
            remaining_users: ids,
        };
        proof {
            let gone = owned_groups(g0, uid);
            assert(deleted_ids@.to_set() =~= gone);
            assert(self.users@.dom() =~= old(self).users@.dom().remove(uid));
            assert forall|u: i64| #[trigger] self.users@.contains_key(u) implies user_forgets(
                old(self).users@[u],
                uid,
                gone,
                self.users@[u],
            ) by {
                assert(users1[u] == old(self).users@[u]);
            }
            assert(x.deleted_groups@.len() == deleted@.len());
            assert forall|gid: i64| list_ids(left@).contains(gid) <==> (g0.dom().contains(gid)
                && g0[gid].ty is Private && !owned_by(g0[gid], uid)) by {}
            assert(list_ids(x.left_private_groups@).to_set() =~= g0.dom().filter(
                |gid: i64| g0[gid].ty is Private && !owned_by(g0[gid], uid),
            ));
            assert(x.public_groups@.to_set() =~= g0.dom().filter(|gid: i64| g0[gid].ty is Public));
            assert(list_ids(x.deleted_groups@).to_set() =~= gone);
            assert(groups_after_removal(old(self).groups@, uid, self.groups@));
        }
        Some(x)
    }
}

/// A removed user leaves no trace: it is no user any more, no remaining
/// group is a private group it owns, it is a member of no remaining private
/// group, and no remaining user keeps a read position or a pinned chat for
/// it or for a deleted group.
pub proof fn lemma_removed_user_leaves_no_trace(c: Cache, uid: i64, new: Cache, x: UserRemoval)
    requires
        c.users@.contains_key(uid),
        removal_done(c, uid, new, x),
    ensures
        !new.users@.contains_key(uid),
        forall|gid: i64| #[trigger]
            new.groups@.contains_key(gid) ==> !owned_by(new.groups@[gid], uid) && (
            new.groups@[gid].ty is Private ==> !new.groups@[gid].members@.contains(uid)),
        forall|u: i64, gid: i64|
            #![trigger new.users@[u].read_index_group@.contains_key(gid)]
            #![trigger new.users@[u].pinned_chat_group@.contains(gid)]
            new.users@.contains_key(u) && owned_groups(c.groups@, uid).contains(gid)
                ==> !new.users@[u].read_index_group@.contains_key(gid)
                && !new.users@[u].pinned_chat_group@.contains(gid),
        forall|u: i64| #[trigger]
            new.users@.contains_key(u) ==> !new.users@[u].read_index_user@.contains_key(uid)
                && !new.users@[u].pinned_chat_user@.contains(uid),
{
    assert forall|gid: i64| #[trigger] new.groups@.contains_key(gid) implies !owned_by(
        new.groups@[gid],
        uid,
    ) && (new.groups@[gid].ty is Private ==> !new.groups@[gid].members@.contains(uid)) by {
        assert(group_left(c.groups@[gid], uid, new.groups@[gid]));
    }
    assert forall|u: i64, gid: i64|
        new.users@.contains_key(u) && owned_groups(c.groups@, uid).contains(
            gid,
        ) implies !new.users@[u].read_index_group@.contains_key(gid)
            && !new.users@[u].pinned_chat_group@.contains(gid) by {
        assert(user_forgets(c.users@[u], uid, owned_groups(c.groups@, uid), new.users@[u]));
    }
}

} // verus!
