//! Keeping the pinned messages of the cached groups in step with edits and
//! deletions of the messages.

use crate::agent_convert::{ChatMessageContent, ContentView};
use crate::removal::increasing;
use crate::state::{member_list, same_pinned, sorted_keys, Cache, CacheGroup, PinnedMessage};
use vstd::prelude::*;

verus! {

broadcast use vstd::std_specs::btree::group_btree_axioms;

/// The position of the first pinned message with the id `mid`.
pub open spec fn pinned_index(s: Seq<PinnedMessage>, mid: i64) -> Option<int>
    decreases s.len(),
{
    if s.len() == 0 {
        None
    } else if s[0].mid == mid {
        Some(0)
    } else {
        match pinned_index(s.skip(1), mid) {
            Some(i) => Some(i + 1),
            None => None,
        }
    }
}

/// Whether the group has pinned the message `mid`.
pub open spec fn pins(g: CacheGroup, mid: i64) -> bool {
    pinned_index(g.pinned_messages@, mid) is Some
}

/// The pinned messages `new` are `old` after the message `mid` got the
/// content `content`, or was deleted when there is none: the first pinned
/// copy of it changes, nothing else does.
pub open spec fn pinned_updated(
    old: Seq<PinnedMessage>,
    mid: i64,
    content: Option<ContentView>,
    new: Seq<PinnedMessage>,
) -> bool {
    match pinned_index(old, mid) {
        None => new == old,
        Some(i) => match content {
            Some(c) => new.len() == old.len() && (forall|j: int|
                0 <= j < old.len() && j != i ==> #[trigger] new[j] == old[j]) && new[i]
                == (PinnedMessage { content: new[i].content, ..old[i] }) && new[i].content@ == c,
            None => new == old.remove(i),
        },
    }
}

/// What an edit or deletion of a pinned message changed in a group: the
/// group, the users to tell (all users for a public group, the members for
/// a private one, in increasing id order), and the pinned message as it now
/// is, `None` when it was deleted.
pub struct PinnedChange {
    pub gid: i64,
    pub targets: Vec<i64>,
    pub message: Option<PinnedMessage>,
}

/// The position of the first pinned message with the id `mid`.
fn find_pinned(s: &Vec<PinnedMessage>, mid: i64) -> (r: Option<usize>)
    ensures
        match r {
            Some(i) => pinned_index(s@, mid) == Some(i as int) && i < s.len(),
            None => pinned_index(s@, mid) is None,
        },
{
    let mut i: usize = 0;
    assert(s@.skip(0) =~= s@);
    while i < s.len()
        invariant
            i <= s.len(),
            pinned_index(s@, mid) == (match pinned_index(s@.skip(i as int), mid) {
                Some(k) => Some(k + i),
                None => None,
            }),
        decreases s.len() - i,
    {
        assert(s@.skip(i as int)[0] == s@[i as int]);
        assert(s@.skip(i as int).skip(1) =~= s@.skip(i + 1));
        if s[i].mid == mid {
            return Some(i);
        }
        i += 1;
    }
    None
}

/// Gives the pinned message at `i` the content `content`, or removes it when
/// there is none; the changed message is returned.
fn change_pinned(
    s: &mut Vec<PinnedMessage>,
    i: usize,
    content: Option<ChatMessageContent>,
) -> (r: Option<PinnedMessage>)
    requires
        i < old(s).len(),
    ensures
        match content {
            Some(c) => final(s)@.len() == old(s)@.len() && (forall|j: int|
                0 <= j < old(s)@.len() && j != i ==> #[trigger] final(s)@[j] == old(s)@[j])
                && final(s)@[i as int] == (PinnedMessage {
                content: final(s)@[i as int].content,
                ..old(s)@[i as int]
            }) && final(s)@[i as int].content@ == c@ && (r matches Some(m) && same_pinned(
                m,
                final(s)@[i as int],
            )),
            None => final(s)@ == old(s)@.remove(i as int) && r is None,
        },
{
    match content {
        Some(c) => {
            let old_msg = s.remove(i);
            let m = PinnedMessage {
                mid: old_msg.mid,
                created_by: old_msg.created_by,
                created_at: old_msg.created_at,
                content: c,
            };
            let copy = m.duplicate();
            s.insert(i, m);
            assert forall|j: int| 0 <= j < old(s)@.len() && j != i implies #[trigger] s@[j] == old(
                s,
            )@[j] by {}
            Some(copy)
        },
        None => {
            s.remove(i);
            None
        },
    }
}

impl Cache {
    /// The message `mid` got the content `content`, or was deleted when there
    /// is none: the first group, in increasing id order, that pinned it
    /// changes its first pinned copy, and the change is returned; `None`,
    /// and nothing changes, when no group pinned it.
    #[verifier::spinoff_prover]
    pub fn update_pinned_message(&mut self, mid: i64, content: Option<ChatMessageContent>) -> (r:
        Option<PinnedChange>)
        ensures
            final(self).users == old(self).users,
            match r {
                None => final(self).groups@ == old(self).groups@ && forall|gid: i64|
                    #[trigger] old(self).groups@.contains_key(gid) ==> !pins(
                        old(self).groups@[gid],
                        mid,
                    ),
                Some(ch) => {
                    let g = old(self).groups@[ch.gid];
                    &&& old(self).groups@.contains_key(ch.gid)
                    &&& pins(g, mid)
                    &&& forall|gid: i64| #[trigger]
                        old(self).groups@.contains_key(gid) && gid < ch.gid ==> !pins(
                            old(self).groups@[gid],
                            mid,
                        )
                    &&& final(self).groups@.dom() == old(self).groups@.dom()
                    &&& forall|gid: i64| #[trigger]
                        final(self).groups@.contains_key(gid) && gid != ch.gid
                            ==> final(self).groups@[gid] == old(self).groups@[gid]
                    &&& final(self).groups@[ch.gid] == (CacheGroup {
                        pinned_messages: final(self).groups@[ch.gid].pinned_messages,
                        ..g
                    })
                    &&& pinned_updated(
                        g.pinned_messages@,
                        mid,
                        match content {
                            Some(c) => Some(c@),
                            None => None,
                        },
                        final(self).groups@[ch.gid].pinned_messages@,
                    )
                    &&& increasing(ch.targets@)
                    &&& ch.targets@.to_set() == (if g.ty is Public {
                        old(self).users@.dom()
                    } else {
                        g.members@
                    })
                    &&& match content {
                        Some(_) => ch.message matches Some(m) && same_pinned(
                            m,
                            final(self).groups@[ch.gid].pinned_messages@[pinned_index(
                                g.pinned_messages@,
                                mid,
                            )->0],
                        ),
                        None => ch.message is None,
                    }
                },
            },
    {
        let gids = sorted_keys(&self.groups);
        let mut i: usize = 0;
        while i < gids.len()
            invariant
                i <= gids.len(),
                gids@.to_set() == self.groups@.dom(),
                increasing(gids@),
                self.groups == old(self).groups,
                self.users == old(self).users,
                forall|k: int| 0 <= k < i ==> !pins(self.groups@[#[trigger] gids@[k]], mid),
            decreases gids.len() - i,
        {
            let gid = gids[i];
            assert(gids@.to_set().contains(gid));
            let found = find_pinned(&self.groups.get(&gid).unwrap().pinned_messages, mid);
            if let Some(idx) = found {
                let mut g = self.groups.remove(&gid).unwrap();
                let targets = if g.ty.is_public() {
                    sorted_keys(&self.users)
                } else {
                    member_list(&g.members)
                };
                let ghost g0 = g;
                let message = change_pinned(&mut g.pinned_messages, idx, content);
                proof {
                    assert(g == (CacheGroup { pinned_messages: g.pinned_messages, ..g0 }));
                }
                self.groups.insert(gid, g);
                proof {
                    assert(self.groups@.dom() =~= old(self).groups@.dom());
                    assert forall|x: i64| #[trigger]
                        old(self).groups@.contains_key(x) && x < gid implies !pins(
                        old(self).groups@[x],
                        mid,
                    ) by {
                        assert(gids@.to_set().contains(x));
                        let k = choose|k: int| 0 <= k < gids@.len() && gids@[k] == x;
                        if k >= i {
                            if k > i {
                                assert(gids@[i as int] < gids@[k]);
                            }
                        }
                    }
                }
                return Some(PinnedChange { gid, targets, message });
            }
            i += 1;
        }
        proof {
            assert forall|gid: i64| #[trigger] old(self).groups@.contains_key(gid) implies !pins(
                old(self).groups@[gid],
                mid,
            ) by {
                assert(gids@.to_set().contains(gid));
                let k = choose|k: int| 0 <= k < gids@.len() && gids@[k] == gid;
                assert(!pins(self.groups@[gids@[k]], mid));
            }
        }
        None
    }
}

} // verus!
