//! Server housekeeping: random identifiers, and the online state of bots
//! connected through Matrix, which lapses a minute after their last sync.

use crate::state::{Cache, CacheUser};
use crate::text::{push_char, push_chars};
use std::collections::HashMap;
use vstd::prelude::*;
use vstd::std_specs::iter::IteratorSpec;

verus! {

broadcast use vstd::std_specs::btree::group_btree_axioms;

/// Whether `c` is an ASCII letter or digit.
pub open spec fn is_ascii_alphanumeric(c: char) -> bool {
    ('0' <= c <= '9') || ('a' <= c <= 'z') || ('A' <= c <= 'Z')
}

/// Draws an ASCII letter or digit with `fastrand::alphanumeric`; nothing but
/// its class is known of it.
#[verifier::external_body]
fn random_alphanumeric() -> (c: char)
    ensures
        is_ascii_alphanumeric(c),
{
    fastrand::alphanumeric()
}

/// A random string of `len` ASCII letters and digits.
pub fn create_random_str(len: usize) -> (s: String)
    ensures
        s@.len() == len,
        forall|i: int| 0 <= i < len ==> is_ascii_alphanumeric(#[trigger] s@[i]),
{
    let mut s = String::new();
    let mut i: usize = 0;
    while i < len
        invariant
            i <= len,
            s@.len() == i,
            forall|j: int| 0 <= j < i ==> is_ascii_alphanumeric(#[trigger] s@[j]),
        decreases len - i,
    {
        let c = random_alphanumeric();
        push_char(&mut s, c);
        i += 1;
    }
    s
}

/// Milliseconds after its last sync at which a bot goes offline.
pub const BOT_OFFLINE_TIMEOUT_MS: u64 = 60000;

/// The users with the bot `uid` set online or offline, when it is a bot.
pub open spec fn with_bot_online(users: Map<i64, CacheUser>, uid: i64, online: bool) -> Map<
    i64,
    CacheUser,
> {
    if users.contains_key(uid) && users[uid].is_bot {
        users.insert(uid, CacheUser { bot_online: online, ..users[uid] })
    } else {
        users
    }
}

impl Cache {
    /// Sets the online state of the bot `uid`; whether it is a bot.
    pub fn set_bot_online(&mut self, uid: i64, online: bool) -> (is_bot: bool)
        ensures
            is_bot == (old(self).users@.contains_key(uid) && old(self).users@[uid].is_bot),
            final(self).users@ == with_bot_online(old(self).users@, uid, online),
            final(self).groups == old(self).groups,
    {
        match self.users.remove(&uid) {
            Some(mut u) => {
                let is_bot = u.is_bot;
                if is_bot {
                    u.bot_online = online;
                }
                self.users.insert(uid, u);
                proof {
                    if !is_bot {
                        assert(self.users@ =~= old(self).users@);
                    }
                }
                is_bot
            },
            None => {
                assert(self.users@ =~= old(self).users@);
                false
            },
        }
    }
}

/// The deadlines of the bots' online state, in milliseconds.
pub struct BotPresence {
    pub timers: HashMap<i64, u64>,
}

/// The timers left after the ones due at `now` lapse.
pub open spec fn live_timers(timers: Map<i64, u64>, now: u64) -> Map<i64, u64> {
    timers.restrict(timers.dom().filter(|k: i64| now < timers[k]))
}

/// The users after the bots with the given ids went offline.
pub open spec fn all_offline(users: Map<i64, CacheUser>, uids: Seq<i64>) -> Map<i64, CacheUser>
    decreases uids.len(),
{
    if uids.len() == 0 {
        users
    } else {
        with_bot_online(all_offline(users, uids.drop_last()), uids.last(), false)
    }
}

impl BotPresence {
    /// No bot online.
    pub fn new() -> (p: Self)
        ensures
            p.timers@ == Map::<i64, u64>::empty(),
    {
        BotPresence { timers: HashMap::new() }
    }

    /// A bot synced at `now`: it is online, and goes offline a minute later
    /// unless it syncs again. Whether it is a bot, so that its state change
    /// is announced.
    pub fn bot_online(&mut self, cache: &mut Cache, uid: i64, now: u64) -> (is_bot: bool)
        requires
            now + BOT_OFFLINE_TIMEOUT_MS <= u64::MAX,
        ensures
            is_bot == (old(cache).users@.contains_key(uid) && old(cache).users@[uid].is_bot),
            final(cache).users@ == with_bot_online(old(cache).users@, uid, true),
            final(cache).groups == old(cache).groups,
            final(self).timers@ == old(self).timers@.insert(uid, (now + BOT_OFFLINE_TIMEOUT_MS) as u64),
    {
        let is_bot = cache.set_bot_online(uid, true);
        self.timers.insert(uid, now + BOT_OFFLINE_TIMEOUT_MS);
        is_bot
    }

    /// A bot went offline explicitly: it is offline and its timer stops.
    pub fn bot_offline(&mut self, cache: &mut Cache, uid: i64) -> (is_bot: bool)
        ensures
            is_bot == (old(cache).users@.contains_key(uid) && old(cache).users@[uid].is_bot),
            final(cache).users@ == with_bot_online(old(cache).users@, uid, false),
            final(cache).groups == old(cache).groups,
            final(self).timers@ == old(self).timers@.remove(uid),
    {
        let is_bot = cache.set_bot_online(uid, false);
        self.timers.remove(&uid);
        is_bot
    }

    /// The bots whose timer is due at `now` go offline and their timers
    /// stop; the due ids are returned, each once.
    pub fn expire(&mut self, cache: &mut Cache, now: u64) -> (due: Vec<i64>)
        ensures
            due@.to_set() == old(self).timers@.dom().filter(|k: i64| now >= old(self).timers@[k]),
            due@.no_duplicates(),
            final(self).timers@ == live_timers(old(self).timers@, now),
            final(cache).users@ == all_offline(old(cache).users@, due@),
            final(cache).groups == old(cache).groups,
    {
        broadcast use vstd::std_specs::hash::group_hash_axioms;

        let ghost t0 = self.timers@;
        let mut keys: Vec<i64> = Vec::new();
        for k in it: self.timers.keys()
            invariant
                it.seq() == vstd::std_specs::hash::spec_keys_iter(&self.timers).remaining(),
                keys@ == it.seq().take(it.index() as int).unref(),
            ensures
                keys@ == vstd::std_specs::hash::spec_keys_iter(&self.timers).remaining().unref(),
        {
            keys.push(*k);
            assert(keys@ =~= it.seq().take(it.index() + 1).unref());
        }
        proof {
            let s = vstd::std_specs::hash::spec_keys_iter(&self.timers).remaining();
            assert(keys@.to_set() == t0.dom());
            assert(keys@.no_duplicates()) by {
                assert forall|a: int, b: int| 0 <= a < b < keys@.len() implies keys@[a] != keys@[b] by {
                    assert(s[a] != s[b]);
                }
            }
        }
        let mut due: Vec<i64> = Vec::new();
        let mut i: usize = 0;
        while i < keys.len()
            invariant
                i <= keys.len(),
                t0 == self.timers@,
                keys@.to_set() == t0.dom(),
                keys@.no_duplicates(),
                due@ == due_keys(keys@.take(i as int), t0, now),
            decreases keys.len() - i,
        {
            assert(keys@.take(i + 1).drop_last() =~= keys@.take(i as int));
            let k = keys[i];
            assert(keys@.to_set().contains(k));
            match self.timers.get(&k) {
                Some(deadline) => {
                    if now >= *deadline {
                        due.push(k);
                    }
                },
                None => {},
            }
            i += 1;
        }
        assert(keys@.take(keys.len() as int) =~= keys@);
        proof {
            lemma_due_keys(keys@, t0, now);
            assert(due@.to_set() =~= t0.dom().filter(|k: i64| now >= t0[k]));
        }
        let mut j: usize = 0;
        while j < due.len()
            invariant
                j <= due.len(),
                forall|k: i64|
                    #[trigger] self.timers@.contains_key(k) <==> t0.contains_key(k) && !due@.take(
                        j as int,
                    ).contains(k),
                forall|k: i64| #[trigger] self.timers@.contains_key(k) ==> self.timers@[k] == t0[k],
                cache.users@ == all_offline(old(cache).users@, due@.take(j as int)),
                cache.groups == old(cache).groups,
            decreases due.len() - j,
        {
            let uid = due[j];
            cache.set_bot_online(uid, false);
            self.timers.remove(&uid);
            assert(due@.take(j + 1).drop_last() =~= due@.take(j as int));
            assert forall|k: i64| due@.take(j + 1).contains(k) <==> (due@.take(j as int).contains(k) || k == uid) by {
                if due@.take(j + 1).contains(k) {
                    let x = choose|x: int| 0 <= x < j + 1 && #[trigger] due@.take(j + 1)[x] == k;
                    if x < j {
                        assert(due@.take(j as int)[x] == k);
                    }
                }
                if due@.take(j as int).contains(k) {
                    let x = choose|x: int| 0 <= x < j && #[trigger] due@.take(j as int)[x] == k;
                    assert(due@.take(j + 1)[x] == k);
                }
                if k == uid {
                    assert(due@.take(j + 1)[j as int] == k);
                }
            }
            j += 1;
        }
        assert(due@.take(due.len() as int) =~= due@);
        assert(self.timers@ =~= live_timers(t0, now)) by {
            assert forall|k: i64| due@.contains(k) <==> (t0.contains_key(k) && now >= t0[k]) by {
                assert(due@.to_set().contains(k) <==> due@.contains(k));
            }
        }
        due
    }
}

/// A bot that synced at `t` and nothing since stays online until a minute
/// has passed: its timer lapses at `now` exactly when `now` is a minute or
/// more after `t`.
pub proof fn lemma_bot_timeout(timers: Map<i64, u64>, uid: i64, t: u64, now: u64)
    requires
        t + BOT_OFFLINE_TIMEOUT_MS <= u64::MAX,
    ensures
        live_timers(timers.insert(uid, (t + BOT_OFFLINE_TIMEOUT_MS) as u64), now).contains_key(uid)
            <==> now < t + BOT_OFFLINE_TIMEOUT_MS,
{
}

/// The keys of `keys` whose timer is due at `now`, in order.
pub open spec fn due_keys(keys: Seq<i64>, timers: Map<i64, u64>, now: u64) -> Seq<i64>
    decreases keys.len(),
{
    if keys.len() == 0 {
        Seq::empty()
    } else {
        let rest = due_keys(keys.drop_last(), timers, now);
        let k = keys.last();
        if timers.contains_key(k) && now >= timers[k] {
            rest.push(k)
        } else {
            rest
        }
    }
}

/// The due keys are the keys whose timer is due, each once.
proof fn lemma_due_keys(keys: Seq<i64>, timers: Map<i64, u64>, now: u64)
    requires
        keys.no_duplicates(),
    ensures
        forall|k: i64|
            due_keys(keys, timers, now).contains(k) <==> (keys.contains(k) && timers.contains_key(k)
                && now >= timers[k]),
        due_keys(keys, timers, now).no_duplicates(),
    decreases keys.len(),
{
    if keys.len() > 0 {
        let init = keys.drop_last();
        assert(init.no_duplicates());
        lemma_due_keys(init, timers, now);
        assert forall|k: i64| keys.contains(k) <==> (init.contains(k) || k == keys.last()) by {
            if keys.contains(k) {
                let x = choose|x: int| 0 <= x < keys.len() && keys[x] == k;
                if x < keys.len() - 1 {
                    assert(init[x] == k);
                }
            }
            if init.contains(k) {
                let x = choose|x: int| 0 <= x < init.len() && init[x] == k;
                assert(keys[x] == k);
            }
        }
        assert(!init.contains(keys.last())) by {
            if init.contains(keys.last()) {
                let x = choose|x: int| 0 <= x < init.len() && init[x] == keys.last();
                assert(keys[x] == keys[keys.len() - 1]);
            }
        }
        let rest = due_keys(init, timers, now);
        let k = keys.last();
        if timers.contains_key(k) && now >= timers[k] {
            assert forall|x: i64| rest.push(k).contains(x) <==> (rest.contains(x) || x == k) by {
                if rest.push(k).contains(x) {
                    let y = choose|y: int| 0 <= y < rest.len() + 1 && rest.push(k)[y] == x;
                    if y < rest.len() {
                        assert(rest[y] == x);
                    }
                }
                if rest.contains(x) {
                    let y = choose|y: int| 0 <= y < rest.len() && rest[y] == x;
                    assert(rest.push(k)[y] == x);
                }
                if x == k {
                    assert(rest.push(k)[rest.len() as int] == x);
                }
            }
            assert(rest.push(k).no_duplicates()) by {
                assert forall|a: int, b: int| 0 <= a < b < rest.len() + 1 implies rest.push(k)[a] != rest.push(k)[b] by {
                    if b == rest.len() {
                        assert(rest.contains(rest[a]));
                    }
                }
            }
            assert forall|x: i64|
                due_keys(keys, timers, now).contains(x) <==> (keys.contains(x) && timers.contains_key(x)
                    && now >= timers[x]) by {
                assert(due_keys(keys, timers, now) == rest.push(k));
            }
        } else {
            assert forall|x: i64|
                due_keys(keys, timers, now).contains(x) <==> (keys.contains(x) && timers.contains_key(x)
                    && now >= timers[x]) by {
                assert(due_keys(keys, timers, now) == rest);
            }
        }
    } else {
        assert forall|x: i64| !keys.contains(x) by {}
    }
}

// ----- the API's servers -----

/// The address of the API on a local server.
pub const LOCAL_API_URL: &'static str = "http://localhost:3000/api";

/// The address of the API under a frontend URL: `api` appended after a
/// trailing `/`, `/api` otherwise.
pub open spec fn frontend_api_url(url: Seq<char>) -> Seq<char> {
    if url.len() > 0 && url.last() == '/' {
        url + "api"@
    } else {
        url + "/api"@
    }
}

/// The frontend URL in effect: the stored one, else the configured one when
/// it is not empty.
pub open spec fn effective_frontend_url(stored: Option<Seq<char>>, configured: Seq<char>) -> Option<
    Seq<char>,
> {
    match stored {
        Some(u) => Some(u),
        None => if configured.len() > 0 {
            Some(configured)
        } else {
            None
        },
    }
}

/// The servers the API description lists: the local one, `https://<domain>/api`
/// for each domain in order, then the API under the frontend URL in effect,
/// if any.
pub fn api_server_urls(domains: &Vec<String>, stored_frontend_url: Option<&str>, configured_frontend_url: &str) -> (r: Vec<String>)
    ensures
        r@.len() == domains@.len() + 1 + (if effective_frontend_url(
            match stored_frontend_url {
                Some(u) => Some(u@),
                None => None,
            },
            configured_frontend_url@,
        ) is Some {
            1int
        } else {
            0int
        }),
        r@[0]@ == LOCAL_API_URL@,
        forall|i: int|
            0 <= i < domains@.len() ==> (#[trigger] r@[i + 1])@ == "https://"@ + domains@[i]@
                + "/api"@,
        effective_frontend_url(
            match stored_frontend_url {
                Some(u) => Some(u@),
                None => None,
            },
            configured_frontend_url@,
        ) matches Some(f) ==> r@[domains@.len() + 1int]@ == frontend_api_url(f),
{
    let mut r: Vec<String> = Vec::new();
    r.push(LOCAL_API_URL.to_owned());
    let mut i: usize = 0;
    while i < domains.len()
        invariant
            i <= domains.len(),
            r@.len() == i + 1,
            r@[0]@ == LOCAL_API_URL@,
            forall|k: int| 0 <= k < i ==> (#[trigger] r@[k + 1])@ == "https://"@ + domains@[k]@ + "/api"@,
        decreases domains.len() - i,
    {
        let mut u = "https://".to_owned();
        let d = crate::text::str_chars(domains[i].as_str());
        push_chars(&mut u, &d, 0, d.len());
        let tail = crate::text::str_chars("/api");
        push_chars(&mut u, &tail, 0, tail.len());
        assert(d@.subrange(0, d@.len() as int) =~= d@);
        assert(tail@.subrange(0, tail@.len() as int) =~= tail@);
        r.push(u);
        i += 1;
    }
    let frontend = match stored_frontend_url {
        Some(u) => Some(u),
        None => if !configured_frontend_url.is_empty() {
            Some(configured_frontend_url)
        } else {
            None
        },
    };
    if let Some(f) = frontend {
        let v = crate::text::str_chars(f);
        let mut u = f.to_owned();
        let tail = if v.len() > 0 && v[v.len() - 1] == '/' {
            crate::text::str_chars("api")
        } else {
            crate::text::str_chars("/api")
        };
        push_chars(&mut u, &tail, 0, tail.len());
        assert(tail@.subrange(0, tail@.len() as int) =~= tail@);
        r.push(u);
    }
    r
}

} // verus!
