//! The rooms the Matrix bridge shows each bot: a direct conversation with
//! each contact, and each group it belongs to.

use crate::removal::increasing;
use crate::rooms::{get_room_id, room_id_of, MessageTarget};
use crate::state::{sorted_keys, Cache, CacheUser};
use crate::text::str_chars;
use vstd::prelude::*;
use vstd::std_specs::iter::IteratorSpec;

verus! {

broadcast use {vstd::std_specs::hash::group_hash_axioms, vstd::std_specs::btree::group_btree_axioms};

// ----- the order of texts -----

/// Whether `a` comes before `b` in the order of texts: by their first
/// differing character, a prefix first. This is the order `String`'s `Ord`
/// gives, since UTF-8 keeps the order of characters.
pub open spec fn text_less(a: Seq<char>, b: Seq<char>) -> bool
    decreases a.len(),
{
    if a.len() == 0 {
        b.len() > 0
    } else if b.len() == 0 {
        false
    } else if a[0] != b[0] {
        a[0] < b[0]
    } else {
        text_less(a.skip(1), b.skip(1))
    }
}

/// Texts in strictly increasing order.
pub open spec fn texts_increasing(v: Seq<String>) -> bool {
    forall|i: int, j: int| 0 <= i < j < v.len() ==> text_less(v[i]@, v[j]@)
}

/// The texts of a list, as a set.
pub open spec fn text_set(v: Seq<String>) -> Set<Seq<char>> {
    v.map_values(|s: String| s@).to_set()
}

/// No text comes before itself.
pub proof fn lemma_text_less_irreflexive(a: Seq<char>)
    ensures
        !text_less(a, a),
    decreases a.len(),
{
    if a.len() > 0 {
        lemma_text_less_irreflexive(a.skip(1));
    }
}

/// Of two different texts, one comes before the other, and not both ways.
pub proof fn lemma_text_less_total(a: Seq<char>, b: Seq<char>)
    ensures
        a != b ==> text_less(a, b) || text_less(b, a),
        !(text_less(a, b) && text_less(b, a)),
    decreases a.len(),
{
    if a.len() > 0 && b.len() > 0 && a[0] == b[0] {
        lemma_text_less_total(a.skip(1), b.skip(1));
        if a != b {
            assert(a.skip(1) != b.skip(1)) by {
                if a.skip(1) == b.skip(1) {
                    assert(a =~= seq![a[0]] + a.skip(1));
                    assert(b =~= seq![b[0]] + b.skip(1));
                }
            }
        }
    }
    if a.len() == 0 && b.len() == 0 {
        assert(a =~= b);
    }
}

/// The order of texts is transitive.
pub proof fn lemma_text_less_transitive(a: Seq<char>, b: Seq<char>, c: Seq<char>)
    requires
        text_less(a, b),
        text_less(b, c),
    ensures
        text_less(a, c),
    decreases a.len(),
{
    if a.len() > 0 && b.len() > 0 && c.len() > 0 && a[0] == b[0] && b[0] == c[0] {
        lemma_text_less_transitive(a.skip(1), b.skip(1), c.skip(1));
    }
}

/// Whether `a` comes before `b`.
pub(crate) fn less_text(a: &Vec<char>, b: &Vec<char>) -> (r: bool)
    ensures
        r == text_less(a@, b@),
{
    let mut i: usize = 0;
    assert(a@.skip(0) =~= a@);
    assert(b@.skip(0) =~= b@);
    while i < a.len() && i < b.len() && a[i] == b[i]
        invariant
            i <= a.len(),
            i <= b.len(),
            text_less(a@, b@) == text_less(a@.skip(i as int), b@.skip(i as int)),
        decreases a.len() - i,
    {
        assert(a@.skip(i as int).skip(1) =~= a@.skip(i + 1));
        assert(b@.skip(i as int).skip(1) =~= b@.skip(i + 1));
        assert(a@.skip(i as int)[0] == a@[i as int]);
        assert(b@.skip(i as int)[0] == b@[i as int]);
        i += 1;
    }
    if i == a.len() {
        i < b.len()
    } else if i == b.len() {
        false
    } else {
        assert(a@.skip(i as int)[0] == a@[i as int]);
        assert(b@.skip(i as int)[0] == b@[i as int]);
        a[i] < b[i]
    }
}

/// Adds a text to an increasing list of texts, where it is not yet there.
fn insert_text(v: &mut Vec<String>, s: String)
    requires
        texts_increasing(old(v)@),
    ensures
        texts_increasing(final(v)@),
        text_set(final(v)@) == text_set(old(v)@).insert(s@),
{
    let sv = str_chars(s.as_str());
    let mut p: usize = 0;
    while p < v.len() && less_text(&str_chars(v[p].as_str()), &sv)
        invariant
            p <= v.len(),
            sv@ == s@,
            forall|k: int| 0 <= k < p ==> text_less(v@[k]@, s@),
        decreases v.len() - p,
    {
        p += 1;
    }
    let ghost old_v = v@;
    if p < v.len() {
        proof {
            lemma_text_less_total(v@[p as int]@, s@);
        }
        if crate::text::str_equal(v[p].as_str(), s.as_str()) {
            assert(text_set(v@) =~= text_set(old_v).insert(s@)) by {
                assert(old_v.map_values(|x: String| x@)[p as int] == s@);
            }
            return;
        }
    }
    assert(p < old_v.len() ==> text_less(s@, old_v[p as int]@));
    let ghost sv0 = s@;
    v.insert(p, s);
    proof {
        let s_ = sv0;
        assert forall|i: int, j: int| 0 <= i < j < v@.len() implies text_less(v@[i]@, v@[j]@) by {
            if j < p {
                assert(v@[i] == old_v[i] && v@[j] == old_v[j]);
            } else if j == p {
                assert(v@[i] == old_v[i]);
            } else if i < p {
                assert(v@[i] == old_v[i] && v@[j] == old_v[j - 1]);
                assert(text_less(old_v[i]@, s_));
                if j - 1 > p {
                    lemma_text_less_transitive(s_, old_v[p as int]@, old_v[j - 1]@);
                }
                lemma_text_less_transitive(old_v[i]@, s_, old_v[j - 1]@);
            } else if i == p {
                assert(v@[j] == old_v[j - 1]);
                if j - 1 > p {
                    lemma_text_less_transitive(s_, old_v[p as int]@, old_v[j - 1]@);
                }
            } else {
                assert(v@[i] == old_v[i - 1] && v@[j] == old_v[j - 1]);
            }
        }
        let nv = v@.map_values(|x: String| x@);
        let ov = old_v.map_values(|x: String| x@);
        assert(nv =~= ov.insert(p as int, s_));
        assert forall|x: Seq<char>| nv.contains(x) <==> (ov.contains(x) || x == s_) by {
            if nv.contains(x) {
                let a = choose|a: int| 0 <= a < nv.len() && nv[a] == x;
                if a < p {
                    assert(ov[a] == x);
                } else if a > p {
                    assert(ov[a - 1] == x);
                }
            }
            if ov.contains(x) {
                let a = choose|a: int| 0 <= a < ov.len() && ov[a] == x;
                if a < p {
                    assert(nv[a] == x);
                } else {
                    assert(nv[a + 1] == x);
                }
            }
            if x == s_ {
                assert(nv[p as int] == x);
            }
        }
        assert(text_set(v@) =~= text_set(old_v).insert(s_));
    }
}

// ----- the rooms -----

/// The direct conversation room of the users `a` and `b`: the smaller id first.
pub open spec fn dm_room(a: i64, b: i64, domain: Seq<char>) -> Seq<char> {
    if a < b {
        room_id_of(a, MessageTarget::User { uid: b }, domain)
    } else {
        room_id_of(b, MessageTarget::User { uid: a }, domain)
    }
}

/// The direct conversation rooms of the bot `bot`: one with each of its
/// contacts, and one with each user that has it as a contact.
pub open spec fn bot_dm_rooms(users: Map<i64, CacheUser>, bot: i64, domain: Seq<char>) -> Set<
    Seq<char>,
> {
    Set::new(
        |r: Seq<char>|
            (exists|t: i64| users[bot].contacts@.contains_key(t) && r == #[trigger] dm_room(bot, t, domain))
                || (exists|u: i64|
                users.contains_key(u) && users[u].contacts@.contains_key(bot) && r == #[trigger] dm_room(
                    u,
                    bot,
                    domain,
                )),
    )
}

/// The group rooms of the bot `bot`: one for each group it belongs to.
pub open spec fn bot_group_rooms(c: Cache, bot: i64, domain: Seq<char>) -> Set<Seq<char>> {
    Set::new(
        |r: Seq<char>|
            exists|g: i64|
                c.groups@.contains_key(g) && (c.groups@[g].ty is Public || c.groups@[g].members@.contains(bot))
                    && r == #[trigger] room_id_of(bot, MessageTarget::Group { gid: g }, domain),
    )
}

/// The bots, each with its rooms in increasing order, and all their direct
/// conversation rooms in increasing order.
pub struct BotRooms {
    pub bot_uids: Vec<i64>,
    pub rooms: Vec<(i64, Vec<String>)>,
    pub dm_rooms: Vec<String>,
}

/// The direct conversation room of two users.
fn dm_room_id(a: i64, b: i64, domain: &str) -> (r: String)
    ensures
        r@ == dm_room(a, b, domain@),
{
    if a < b {
        get_room_id(a, &MessageTarget::User { uid: b }, domain)
    } else {
        get_room_id(b, &MessageTarget::User { uid: a }, domain)
    }
}

/// `r` is the room of `bot` with one of the first `n` contacts `keys`.
pub open spec fn dm_with_keys(r: Seq<char>, keys: Seq<&i64>, n: int, bot: i64, d: Seq<char>) -> bool {
    exists|j: int| 0 <= j < n && r == #[trigger] dm_room(bot, *keys[j], d)
}

/// `r` is the room of `bot` with one of the first `n` users `ids` that have
/// it as a contact.
pub open spec fn dm_with_users(
    r: Seq<char>,
    ids: Seq<i64>,
    n: int,
    users: Map<i64, CacheUser>,
    bot: i64,
    d: Seq<char>,
) -> bool {
    exists|k: int|
        0 <= k < n && users[ids[k]].contacts@.contains_key(bot) && r == #[trigger] dm_room(
            ids[k],
            bot,
            d,
        )
}

/// `r` is the room of one of the first `n` groups `gids` that `bot` belongs to.
pub open spec fn group_of(r: Seq<char>, gids: Seq<i64>, n: int, c: Cache, bot: i64, d: Seq<char>) -> bool {
    exists|k: int|
        0 <= k < n && (c.groups@[gids[k]].ty is Public || c.groups@[gids[k]].members@.contains(bot))
            && r == #[trigger] room_id_of(bot, MessageTarget::Group { gid: gids[k] }, d)
}

impl Cache {
    /// The direct conversation rooms of the bot `bot`, added to `rooms` and `all`.
    fn add_dm_rooms(&self, bot: i64, domain: &str, rooms: &mut Vec<String>, all: &mut Vec<String>)
        requires
            self.users@.contains_key(bot),
            texts_increasing(old(rooms)@),
            texts_increasing(old(all)@),
        ensures
            texts_increasing(final(rooms)@),
            texts_increasing(final(all)@),
            forall|r: Seq<char>|
                #[trigger] text_set(final(rooms)@).contains(r) <==> (text_set(old(rooms)@).contains(r)
                    || bot_dm_rooms(self.users@, bot, domain@).contains(r)),
            forall|r: Seq<char>|
                #[trigger] text_set(final(all)@).contains(r) <==> (text_set(old(all)@).contains(r)
                    || bot_dm_rooms(self.users@, bot, domain@).contains(r)),
    {
        let ghost r0 = text_set(rooms@);
        let ghost a0 = text_set(all@);
        let ghost d = domain@;
        let user = self.users.get(&bot).unwrap();
        // its own contacts
        for t in it: user.contacts.keys()
            invariant
                it.seq() == vstd::std_specs::hash::spec_keys_iter(&user.contacts).remaining(),
                d == domain@,
                texts_increasing(rooms@),
                texts_increasing(all@),
                forall|r: Seq<char>|
                    #[trigger] text_set(rooms@).contains(r) <==> (r0.contains(r) || dm_with_keys(
                        r,
                        it.seq(),
                        it.index() as int,
                        bot,
                        d,
                    )),
                forall|r: Seq<char>|
                    #[trigger] text_set(all@).contains(r) <==> (a0.contains(r) || dm_with_keys(
                        r,
                        it.seq(),
                        it.index() as int,
                        bot,
                        d,
                    )),
        {
            let ghost k = it.index() as int;
            let id = dm_room_id(bot, *t, domain);
            let ghost idv = id@;
            assert(idv == dm_room(bot, *it.seq()[k], d));
            insert_text(rooms, id.clone());
            insert_text(all, id);
            assert forall|r: Seq<char>| #[trigger]
                dm_with_keys(r, it.seq(), k + 1, bot, d) <==> (dm_with_keys(r, it.seq(), k, bot, d)
                    || r == idv) by {
                if dm_with_keys(r, it.seq(), k + 1, bot, d) {
                    let j = choose|j: int| 0 <= j < k + 1 && r == #[trigger] dm_room(bot, *it.seq()[j], d);
                    if j < k {
                        assert(0 <= j < k && r == dm_room(bot, *it.seq()[j], d));
                    }
                }
            }
        }
        proof {
            let s = vstd::std_specs::hash::spec_keys_iter(&user.contacts).remaining();
            assert forall|r: Seq<char>| #[trigger] dm_with_keys(r, s, s.len() as int, bot, d) <==> (exists|t: i64|
                user.contacts@.contains_key(t) && r == #[trigger] dm_room(bot, t, d)) by {
                if exists|t: i64| user.contacts@.contains_key(t) && r == #[trigger] dm_room(bot, t, d) {
                    let t = choose|t: i64| user.contacts@.contains_key(t) && r == #[trigger] dm_room(bot, t, d);
                    assert(s.unref().to_set().contains(t));
                    let k = choose|k: int| 0 <= k < s.unref().len() && s.unref()[k] == t;
                    assert(*s[k] == t);
                    assert(r == dm_room(bot, *s[k], d));
                }
                if dm_with_keys(r, s, s.len() as int, bot, d) {
                    let k = choose|k: int| 0 <= k < s.len() && r == #[trigger] dm_room(bot, *s[k], d);
                    assert(s.unref()[k] == *s[k]);
                    assert(s.unref().to_set().contains(*s[k]));
                    assert(user.contacts@.contains_key(*s[k]));
                }
            }
        }
        let ghost r1 = text_set(rooms@);
        let ghost a1 = text_set(all@);
        // the users that have it as a contact
        let ids = sorted_keys(&self.users);
        let mut i: usize = 0;
        while i < ids.len()
            invariant
                i <= ids.len(),
                d == domain@,
                ids@.to_set() == self.users@.dom(),
                texts_increasing(rooms@),
                texts_increasing(all@),
                forall|r: Seq<char>|
                    #[trigger] text_set(rooms@).contains(r) <==> (r1.contains(r) || dm_with_users(
                        r,
                        ids@,
                        i as int,
                        self.users@,
                        bot,
                        d,
                    )),
                forall|r: Seq<char>|
                    #[trigger] text_set(all@).contains(r) <==> (a1.contains(r) || dm_with_users(
                        r,
                        ids@,
                        i as int,
                        self.users@,
                        bot,
                        d,
                    )),
            decreases ids.len() - i,
        {
            let u = ids[i];
            assert(ids@.to_set().contains(u));
            let has = self.users.get(&u).unwrap().contacts.contains_key(&bot);
            if has {
                let id = dm_room_id(u, bot, domain);
                let ghost idv = id@;
                assert(idv == dm_room(ids@[i as int], bot, d));
                insert_text(rooms, id.clone());
                insert_text(all, id);
                assert forall|r: Seq<char>| #[trigger]
                    dm_with_users(r, ids@, i + 1, self.users@, bot, d) <==> (dm_with_users(
                        r,
                        ids@,
                        i as int,
                        self.users@,
                        bot,
                        d,
                    ) || r == idv) by {
                    if dm_with_users(r, ids@, i + 1, self.users@, bot, d) {
                        let k = choose|k: int|
                            0 <= k < i + 1 && self.users@[ids@[k]].contacts@.contains_key(bot) && r
                                == #[trigger] dm_room(ids@[k], bot, d);
                        if k < i {
                            assert(0 <= k < i && self.users@[ids@[k]].contacts@.contains_key(bot));
                        }
                    }
                }
            } else {
                assert forall|r: Seq<char>| #[trigger]
                    dm_with_users(r, ids@, i + 1, self.users@, bot, d) <==> dm_with_users(
                        r,
                        ids@,
                        i as int,
                        self.users@,
                        bot,
                        d,
                    ) by {
                    if dm_with_users(r, ids@, i + 1, self.users@, bot, d) {
                        let k = choose|k: int|
                            0 <= k < i + 1 && self.users@[ids@[k]].contacts@.contains_key(bot) && r
                                == #[trigger] dm_room(ids@[k], bot, d);
                        assert(k != i);
                    }
                }
            }
            i += 1;
        }
        proof {
            assert forall|r: Seq<char>| #[trigger]
                dm_with_users(r, ids@, ids@.len() as int, self.users@, bot, d) <==> (exists|u: i64|
                self.users@.contains_key(u) && self.users@[u].contacts@.contains_key(bot) && r
                    == #[trigger] dm_room(u, bot, d)) by {
                if exists|u: i64|
                    self.users@.contains_key(u) && self.users@[u].contacts@.contains_key(bot) && r
                        == #[trigger] dm_room(u, bot, d) {
                    let u = choose|u: i64|
                        self.users@.contains_key(u) && self.users@[u].contacts@.contains_key(bot) && r
                            == #[trigger] dm_room(u, bot, d);
                    assert(ids@.to_set().contains(u));
                    let k = choose|k: int| 0 <= k < ids@.len() && ids@[k] == u;
                    assert(r == dm_room(ids@[k], bot, d));
                }
                if dm_with_users(r, ids@, ids@.len() as int, self.users@, bot, d) {
                    let k = choose|k: int|
                        0 <= k < ids@.len() && self.users@[ids@[k]].contacts@.contains_key(bot) && r
                            == #[trigger] dm_room(ids@[k], bot, d);
                    assert(ids@.to_set().contains(ids@[k]));
                }
            }
            let s = vstd::std_specs::hash::spec_keys_iter(&user.contacts).remaining();
            assert forall|r: Seq<char>| #[trigger] text_set(rooms@).contains(r) <==> (text_set(
                old(rooms)@,
            ).contains(r) || bot_dm_rooms(self.users@, bot, d).contains(r)) by {
                assert(dm_with_keys(r, s, s.len() as int, bot, d) == (exists|t: i64|
                    user.contacts@.contains_key(t) && r == #[trigger] dm_room(bot, t, d)));
            }
            assert forall|r: Seq<char>| #[trigger] text_set(all@).contains(r) <==> (text_set(
                old(all)@,
            ).contains(r) || bot_dm_rooms(self.users@, bot, d).contains(r)) by {
                assert(dm_with_keys(r, s, s.len() as int, bot, d) == (exists|t: i64|
                    user.contacts@.contains_key(t) && r == #[trigger] dm_room(bot, t, d)));
            }
        }
    }

    /// The group rooms of the bot `bot`, added to `rooms`.
    fn add_group_rooms(&self, bot: i64, domain: &str, rooms: &mut Vec<String>)
        requires
            texts_increasing(old(rooms)@),
        ensures
            texts_increasing(final(rooms)@),
            forall|r: Seq<char>|
                #[trigger] text_set(final(rooms)@).contains(r) <==> (text_set(old(rooms)@).contains(r)
                    || bot_group_rooms(*self, bot, domain@).contains(r)),
    {
        let ghost r0 = text_set(rooms@);
        let ghost d = domain@;
        let gids = sorted_keys(&self.groups);
        let mut i: usize = 0;
        while i < gids.len()
            invariant
                i <= gids.len(),
                d == domain@,
                gids@.to_set() == self.groups@.dom(),
                texts_increasing(rooms@),
                forall|r: Seq<char>|
                    #[trigger] text_set(rooms@).contains(r) <==> (r0.contains(r) || group_of(
                        r,
                        gids@,
                        i as int,
                        *self,
                        bot,
                        d,
                    )),
            decreases gids.len() - i,
        {
            let gid = gids[i];
            assert(gids@.to_set().contains(gid));
            let member = self.groups.get(&gid).unwrap().contains_user(bot);
            if member {
                let id = get_room_id(bot, &MessageTarget::Group { gid }, domain);
                let ghost idv = id@;
                insert_text(rooms, id);
                assert forall|r: Seq<char>| #[trigger] group_of(r, gids@, i + 1, *self, bot, d) <==> (
                group_of(r, gids@, i as int, *self, bot, d) || r == idv) by {
                    if group_of(r, gids@, i + 1, *self, bot, d) {
                        let k = choose|k: int|
                            0 <= k < i + 1 && (self.groups@[gids@[k]].ty is Public
                                || self.groups@[gids@[k]].members@.contains(bot)) && r
                                == #[trigger] room_id_of(bot, MessageTarget::Group { gid: gids@[k] }, d);
                        if k < i {
                            assert(0 <= k < i);
                        }
                    }
                    if r == idv {
                        assert(r == room_id_of(bot, MessageTarget::Group { gid: gids@[i as int] }, d));
                    }
                }
            } else {
                assert forall|r: Seq<char>| #[trigger] group_of(r, gids@, i + 1, *self, bot, d)
                    <==> group_of(r, gids@, i as int, *self, bot, d) by {
                    if group_of(r, gids@, i + 1, *self, bot, d) {
                        let k = choose|k: int|
                            0 <= k < i + 1 && (self.groups@[gids@[k]].ty is Public
                                || self.groups@[gids@[k]].members@.contains(bot)) && r
                                == #[trigger] room_id_of(bot, MessageTarget::Group { gid: gids@[k] }, d);
                        assert(k != i);
                    }
                }
            }
            i += 1;
        }
        proof {
            assert forall|r: Seq<char>| #[trigger] group_of(r, gids@, gids@.len() as int, *self, bot, d)
                <==> bot_group_rooms(*self, bot, d).contains(r) by {
                if bot_group_rooms(*self, bot, d).contains(r) {
                    let g = choose|g: i64|
                        self.groups@.contains_key(g) && (self.groups@[g].ty is Public
                            || self.groups@[g].members@.contains(bot)) && r
                            == #[trigger] room_id_of(bot, MessageTarget::Group { gid: g }, d);
                    assert(gids@.to_set().contains(g));
                    let k = choose|k: int| 0 <= k < gids@.len() && gids@[k] == g;
                    assert(r == room_id_of(bot, MessageTarget::Group { gid: gids@[k] }, d));
                }
                if group_of(r, gids@, gids@.len() as int, *self, bot, d) {
                    let k = choose|k: int|
                        0 <= k < gids@.len() && (self.groups@[gids@[k]].ty is Public
                            || self.groups@[gids@[k]].members@.contains(bot)) && r
                            == #[trigger] room_id_of(bot, MessageTarget::Group { gid: gids@[k] }, d);
                    assert(gids@.to_set().contains(gids@[k]));
                }
            }
        }
    }

    /// The bots in increasing id order, each with its rooms (its direct
    /// conversations and its groups) in increasing order without repeats,
    /// and all the bots' direct conversation rooms in increasing order
    /// without repeats.
    pub fn bot_rooms(&self, matrix_domain: &str) -> (r: BotRooms)
        ensures
            increasing(r.bot_uids@),
            r.bot_uids@.to_set() == self.users@.dom().filter(|u: i64| self.users@[u].is_bot),
            r.rooms@.len() == r.bot_uids@.len(),
            forall|k: int|
                0 <= k < r.rooms@.len() ==> {
                    let b = (#[trigger] r.rooms@[k]).0;
                    &&& b == r.bot_uids@[k]
                    &&& texts_increasing(r.rooms@[k].1@)
                    &&& text_set(r.rooms@[k].1@) == bot_dm_rooms(self.users@, b, matrix_domain@)
                        + bot_group_rooms(*self, b, matrix_domain@)
                },
            texts_increasing(r.dm_rooms@),
            forall|room: Seq<char>|
                text_set(r.dm_rooms@).contains(room) <==> exists|k: int|
                    0 <= k < r.bot_uids@.len() && #[trigger] bot_dm_rooms(
                        self.users@,
                        r.bot_uids@[k],
                        matrix_domain@,
                    ).contains(room),
    {
        let ids = sorted_keys(&self.users);
        let mut bots: Vec<i64> = Vec::new();
        let mut rooms: Vec<(i64, Vec<String>)> = Vec::new();
        let mut all: Vec<String> = Vec::new();
        let ghost d = matrix_domain@;
        let mut i: usize = 0;
        assert(text_set(all@) =~= Set::empty());
        while i < ids.len()
            invariant
                i <= ids.len(),
                d == matrix_domain@,
                ids@.to_set() == self.users@.dom(),
                increasing(ids@),
                increasing(bots@),
                forall|k: int| 0 <= k < bots@.len() ==> self.users@.contains_key(#[trigger] bots@[k]),
                forall|u: i64|
                    bots@.contains(u) <==> ids@.take(i as int).contains(u) && self.users@[u].is_bot,
                rooms@.len() == bots@.len(),
                forall|k: int|
                    0 <= k < rooms@.len() ==> {
                        let b = (#[trigger] rooms@[k]).0;
                        &&& b == bots@[k]
                        &&& texts_increasing(rooms@[k].1@)
                        &&& text_set(rooms@[k].1@) == bot_dm_rooms(self.users@, b, d)
                            + bot_group_rooms(*self, b, d)
                    },
                texts_increasing(all@),
                forall|room: Seq<char>|
                    text_set(all@).contains(room) <==> exists|k: int|
                        0 <= k < bots@.len() && #[trigger] bot_dm_rooms(self.users@, bots@[k], d).contains(room),
            decreases ids.len() - i,
        {
            let u = ids[i];
            assert(ids@.to_set().contains(u));
            assert(ids@.take(i + 1) =~= ids@.take(i as int).push(u));
            let ghost bv = bots@;
            let ghost av = text_set(all@);
            assert forall|x: i64| ids@.take(i + 1).contains(x) <==> (ids@.take(i as int).contains(x) || x == u) by {
                if x == u {
                    assert(ids@.take(i + 1)[i as int] == u);
                }
                if ids@.take(i as int).contains(x) {
                    let a = choose|a: int| 0 <= a < i && ids@.take(i as int)[a] == x;
                    assert(ids@.take(i + 1)[a] == x);
                }
                if ids@.take(i + 1).contains(x) {
                    let a = choose|a: int| 0 <= a < i + 1 && #[trigger] ids@.take(i + 1)[a] == x;
                    if a < i {
                        assert(ids@.take(i as int)[a] == x);
                    }
                }
            }
            if self.users.get(&u).unwrap().is_bot {
                let mut mine: Vec<String> = Vec::new();
                assert(text_set(mine@) =~= Set::empty());
                self.add_dm_rooms(u, matrix_domain, &mut mine, &mut all);
                self.add_group_rooms(u, matrix_domain, &mut mine);
                assert(text_set(mine@) =~= bot_dm_rooms(self.users@, u, d) + bot_group_rooms(*self, u, d));
                bots.push(u);
                rooms.push((u, mine));
                assert(bots@ == bv.push(u));
                proof {
                    assert forall|k: int| 0 <= k < bv.len() implies bv[k] < u by {
                        assert(bv.contains(bv[k]));
                        assert(ids@.take(i as int).contains(bv[k]));
                        let a = choose|a: int| 0 <= a < i && ids@.take(i as int)[a] == bv[k];
                        assert(ids@[a] < ids@[i as int]);
                    }
                    assert forall|x: i64| bots@.contains(x) <==> (bv.contains(x) || x == u) by {
                        if x == u {
                            assert(bots@[bv.len() as int] == u);
                        }
                        if bv.contains(x) {
                            let a = choose|a: int| 0 <= a < bv.len() && bv[a] == x;
                            assert(bots@[a] == x);
                        }
                        if bots@.contains(x) {
                            let a = choose|a: int| 0 <= a < bots@.len() && bots@[a] == x;
                            if a < bv.len() {
                                assert(bv[a] == x);
                            }
                        }
                    }
                    assert forall|room: Seq<char>|
                        text_set(all@).contains(room) <==> exists|k: int|
                            0 <= k < bots@.len() && #[trigger] bot_dm_rooms(self.users@, bots@[k], d).contains(room) by {
                        assert(text_set(all@).contains(room) <==> (av.contains(room)
                            || bot_dm_rooms(self.users@, u, d).contains(room)));
                        assert(av.contains(room) <==> exists|k: int|
                            0 <= k < bv.len() && #[trigger] bot_dm_rooms(self.users@, bv[k], d).contains(room));
                        if text_set(all@).contains(room) {
                            if av.contains(room) {
                                let k = choose|k: int|
                                    0 <= k < bv.len() && #[trigger] bot_dm_rooms(self.users@, bv[k], d).contains(room);
                                assert(bots@[k] == bv[k]);
                                assert(bot_dm_rooms(self.users@, bots@[k], d).contains(room));
                            } else {
                                assert(bots@[bv.len() as int] == u);
                                assert(bot_dm_rooms(self.users@, bots@[bv.len() as int], d).contains(room));
                            }
                        }
                        if exists|k: int| 0 <= k < bots@.len() && #[trigger] bot_dm_rooms(self.users@, bots@[k], d).contains(room) {
                            let k = choose|k: int| 0 <= k < bots@.len() && #[trigger] bot_dm_rooms(self.users@, bots@[k], d).contains(room);
                            if k < bv.len() {
                                assert(bots@[k] == bv[k]);
                                assert(bot_dm_rooms(self.users@, bv[k], d).contains(room));
                            } else {
                                assert(bots@[k] == u);
                            }
                        }
                    }
                    assert forall|x: i64| bots@.contains(x) <==> ids@.take(i + 1).contains(x)
                        && self.users@[x].is_bot by {
                        assert(bv.contains(x) <==> ids@.take(i as int).contains(x) && self.users@[x].is_bot);
                    }
                }
            } else {
                assert forall|x: i64| bots@.contains(x) <==> ids@.take(i + 1).contains(x)
                    && self.users@[x].is_bot by {
                    assert(bv.contains(x) <==> ids@.take(i as int).contains(x) && self.users@[x].is_bot);
                }
            }
            i += 1;
        }
        proof {
            assert(ids@.take(ids.len() as int) =~= ids@);
            assert(bots@.to_set() =~= self.users@.dom().filter(|u: i64| self.users@[u].is_bot)) by {
                assert forall|u: i64| self.users@.dom().contains(u) implies ids@.contains(u) by {
                    assert(ids@.to_set().contains(u));
                }
            }
        }
        BotRooms { bot_uids: bots, rooms, dm_rooms: all }
    }
}

} // verus!
