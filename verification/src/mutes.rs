//! The periodic cleaning of expired mutes from the cache.

use crate::removal::increasing;
use crate::state::{sorted_keys, Cache, CacheUser};
use std::collections::HashMap;
use vstd::prelude::*;
use vstd::std_specs::iter::IteratorSpec;

verus! {

broadcast use {vstd::std_specs::hash::group_hash_axioms, vstd::std_specs::btree::group_btree_axioms};

/// Whether a mute entry has expired at `now`: it has an expiry before `now`.
pub open spec fn expired(entry: Option<i64>, now: i64) -> bool {
    entry matches Some(e) && e < now
}

/// The mutes that have not expired at `now`.
pub open spec fn unexpired(m: Map<i64, Option<i64>>, now: i64) -> Map<i64, Option<i64>> {
    m.restrict(m.dom().filter(|k: i64| !expired(m[k], now)))
}

/// Removes the mutes that have expired at `now`.
fn drop_expired(m: &mut HashMap<i64, Option<i64>>, now: i64)
    ensures
        final(m)@ == unexpired(old(m)@, now),
{
    let ghost m0 = m@;
    let mut keys: Vec<i64> = Vec::new();
    for k in it: m.keys()
        invariant
            it.seq() == vstd::std_specs::hash::spec_keys_iter(&*m).remaining(),
            keys@ == it.seq().take(it.index() as int).unref(),
        ensures
            keys@ == vstd::std_specs::hash::spec_keys_iter(&*m).remaining().unref(),
    {
        keys.push(*k);
        assert(keys@ =~= it.seq().take(it.index() + 1).unref());
    }
    proof {
        let s = vstd::std_specs::hash::spec_keys_iter(&*m).remaining();
        assert(keys@.no_duplicates()) by {
            assert forall|a: int, b: int| 0 <= a < b < keys@.len() implies keys@[a] != keys@[b] by {
                assert(s[a] != s[b]);
            }
        }
    }
    let mut i: usize = 0;
    while i < keys.len()
        invariant
            i <= keys.len(),
            keys@.to_set() == m0.dom(),
            keys@.no_duplicates(),
            forall|k: i64|
                #[trigger] m@.contains_key(k) <==> m0.contains_key(k) && !(keys@.take(
                    i as int,
                ).contains(k) && expired(m0[k], now)),
            forall|k: i64| #[trigger] m@.contains_key(k) ==> m@[k] == m0[k],
        decreases keys.len() - i,
    {
        let k = keys[i];
        assert(keys@.take(i + 1) =~= keys@.take(i as int).push(k));
        assert forall|x: i64| keys@.take(i + 1).contains(x) <==> (keys@.take(i as int).contains(x) || x == k) by {
            if x == k {
                assert(keys@.take(i + 1)[i as int] == k);
            }
            if keys@.take(i as int).contains(x) {
                let a = choose|a: int| 0 <= a < i && keys@.take(i as int)[a] == x;
                assert(keys@.take(i + 1)[a] == x);
            }
            if keys@.take(i + 1).contains(x) {
                let a = choose|a: int| 0 <= a < i + 1 && #[trigger] keys@.take(i + 1)[a] == x;
                if a < i {
                    assert(keys@.take(i as int)[a] == x);
                }
            }
        }
        assert(!keys@.take(i as int).contains(k)) by {
            if keys@.take(i as int).contains(k) {
                let a = choose|a: int| 0 <= a < i && keys@.take(i as int)[a] == k;
                assert(keys@[a] == keys@[i as int]);
            }
        }
        assert(m0.contains_key(k)) by {
            assert(keys@.to_set().contains(k));
        }
        let drop = match m.get(&k) {
            Some(Some(e)) => *e < now,
            _ => false,
        };
        if drop {
            m.remove(&k);
        }
        i += 1;
    }
    assert(keys@.take(keys.len() as int) =~= keys@);
    assert(m@ =~= unexpired(m0, now)) by {
        assert forall|k: i64| m0.contains_key(k) implies keys@.contains(k) by {
            assert(keys@.to_set().contains(k));
        }
    }
}

/// The user `u` with the mutes that expired at `now` dropped, nothing else changed.
pub open spec fn mutes_cleaned(u: CacheUser, now: i64, new: CacheUser) -> bool {
    &&& new == (CacheUser { mute_user: new.mute_user, mute_group: new.mute_group, ..u })
    &&& new.mute_user@ == unexpired(u.mute_user@, now)
    &&& new.mute_group@ == unexpired(u.mute_group@, now)
}

impl CacheUser {
    /// Drops the mutes of users and groups that expired at `now`.
    pub fn clean_mute(&mut self, now: i64)
        ensures
            mutes_cleaned(*old(self), now, *final(self)),
    {
        drop_expired(&mut self.mute_user, now);
        drop_expired(&mut self.mute_group, now);
    }
}

impl Cache {
    /// Drops, for every user, the mutes that expired at `now`.
    pub fn clean_mute(&mut self, now: i64)
        ensures
            final(self).groups == old(self).groups,
            final(self).users@.dom() == old(self).users@.dom(),
            forall|u: i64| #[trigger]
                final(self).users@.contains_key(u) ==> mutes_cleaned(
                    old(self).users@[u],
                    now,
                    final(self).users@[u],
                ),
    {
        let ids = sorted_keys(&self.users);
        let mut j: usize = 0;
        while j < ids.len()
            invariant
                j <= ids.len(),
                ids@.to_set() == old(self).users@.dom(),
                increasing(ids@),
                self.groups == old(self).groups,
                self.users@.dom() == old(self).users@.dom(),
                forall|u: i64| #[trigger]
                    self.users@.contains_key(u) ==> if ids@.take(j as int).contains(u) {
                        mutes_cleaned(old(self).users@[u], now, self.users@[u])
                    } else {
                        self.users@[u] == old(self).users@[u]
                    },
            decreases ids.len() - j,
        {
            let u = ids[j];
            assert(ids@.take(j + 1) =~= ids@.take(j as int).push(u));
            assert forall|x: i64| ids@.take(j + 1).contains(x) <==> (ids@.take(j as int).contains(x) || x == u) by {
                if x == u {
                    assert(ids@.take(j + 1)[j as int] == u);
                }
                if ids@.take(j as int).contains(x) {
                    let a = choose|a: int| 0 <= a < j && ids@.take(j as int)[a] == x;
                    assert(ids@.take(j + 1)[a] == x);
                }
                if ids@.take(j + 1).contains(x) {
                    let a = choose|a: int| 0 <= a < j + 1 && #[trigger] ids@.take(j + 1)[a] == x;
                    if a < j {
                        assert(ids@.take(j as int)[a] == x);
                    }
                }
            }
            assert(!ids@.take(j as int).contains(u)) by {
                if ids@.take(j as int).contains(u) {
                    let a = choose|a: int| 0 <= a < j && ids@.take(j as int)[a] == u;
                    assert(ids@[a] < ids@[j as int]);
                }
            }
            assert(self.users@.contains_key(u)) by {
                assert(ids@.to_set().contains(u));
            }
            let ghost before = self.users@;
            let mut user = self.users.remove(&u).unwrap();
            user.clean_mute(now);
            self.users.insert(u, user);
            assert(self.users@.dom() =~= before.dom());
            j += 1;
        }
        assert(ids@.take(ids.len() as int) =~= ids@);
        assert forall|u: i64| #[trigger] self.users@.contains_key(u) implies mutes_cleaned(
            old(self).users@[u],
            now,
            self.users@[u],
        ) by {
            assert(ids@.to_set().contains(u));
        }
    }
}

/// After cleaning at `now`, no mute with an expiry before `now` is left,
/// and every other mute is kept.
pub proof fn lemma_clean_mute_keeps_live(old_u: CacheUser, now: i64, new_u: CacheUser, k: i64)
    requires
        mutes_cleaned(old_u, now, new_u),
    ensures
        new_u.mute_user@.contains_key(k) <==> old_u.mute_user@.contains_key(k) && !expired(
            old_u.mute_user@[k],
            now,
        ),
        new_u.mute_group@.contains_key(k) <==> old_u.mute_group@.contains_key(k) && !expired(
            old_u.mute_group@[k],
            now,
        ),
        new_u.mute_user@.contains_key(k) ==> new_u.mute_user@[k] == old_u.mute_user@[k],
        new_u.mute_group@.contains_key(k) ==> new_u.mute_group@[k] == old_u.mute_group@[k],
{
}

} // verus!
