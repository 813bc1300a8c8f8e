//! Matrix sync: which stored messages a bot receives, and how a chat message
//! becomes the content of a Matrix room event.

use crate::num::{format_i64, int_text, parse_i64, parse_i64_spec};
use crate::rooms::MessageTarget;
use crate::state::{Cache, CacheGroup, CacheUser};
use crate::text::{chars_string, is_prefix, push_chars, str_chars, str_equal, str_has_prefix};
use std::collections::{BTreeMap, HashMap};
use vstd::prelude::*;

verus! {

broadcast use vstd::std_specs::btree::group_btree_axioms;

/// Milliseconds a sync waits for messages when the client names no timeout.
pub const MAX_WAIT_MS: u64 = 3000;

/// Age in seconds beyond which a message is not synced to a bot.
pub const MAX_MESSAGE_AGE_SECONDS: i64 = 300;

/// Age in seconds beyond which a message is not synced on a first sync.
pub const INITIAL_MESSAGE_AGE_SECONDS: i64 = 30;

/// The bots, the newest message id synced so far and the rooms of each bot.
pub struct BotCache {
    pub bot_uids: Vec<i64>,
    pub max_mid: i64,
    pub room_cache: HashMap<i64, Vec<String>>,
    /// When the cache was last filled, in milliseconds; 0 when never.
    pub last_refreshed: i64,
}

impl BotCache {
    /// An empty, never filled cache.
    pub fn new() -> (c: Self)
        ensures
            c.bot_uids@.len() == 0,
            c.max_mid == 0,
            c.room_cache@ == Map::<i64, Vec<String>>::empty(),
            c.last_refreshed == 0,
    {
        BotCache { bot_uids: Vec::new(), max_mid: 0, room_cache: HashMap::new(), last_refreshed: 0 }
    }

    /// Forgets the bots and their rooms so that the next sync fills the cache
    /// again; the newest message id only ever grows and stays.
    pub fn invalidate(&mut self)
        ensures
            final(self).bot_uids@.len() == 0,
            final(self).room_cache@ == Map::<i64, Vec<String>>::empty(),
            final(self).last_refreshed == 0,
            final(self).max_mid == old(self).max_mid,
    {
        self.bot_uids.clear();
        self.room_cache.clear();
        self.last_refreshed = 0;
    }
}

/// Sync query parameters.
#[derive(Debug, Clone)]
pub struct SyncQuery {
    /// Since token, `s<mid>`.
    pub since: Option<String>,
    /// Timeout in milliseconds.
    pub timeout: Option<i64>,
}

/// The message id a sync starts after: the one of a well formed `s<mid>`
/// token, capped at the newest one synced so far; else the newest one synced.
pub open spec fn since_mid_of(since: Option<Seq<char>>, cached_max_mid: i64) -> i64 {
    match since {
        Some(s) => if s.len() > 0 && s[0] == 's' {
            match parse_i64_spec(s.skip(1)) {
                Some(mid) => if mid < cached_max_mid {
                    mid
                } else {
                    cached_max_mid
                },
                None => cached_max_mid,
            }
        } else {
            cached_max_mid
        },
        None => cached_max_mid,
    }
}

/// The message id a sync starts after.
pub fn since_mid(since: Option<&str>, cached_max_mid: i64) -> (m: i64)
    ensures
        m == since_mid_of(crate::auth::opt_str(since), cached_max_mid),
{
    let s = match since {
        Some(s) => s,
        None => return cached_max_mid,
    };
    let v = str_chars(s);
    if v.len() == 0 || v[0] != 's' {
        return cached_max_mid;
    }
    let rest = chars_string(&v, 1, v.len());
    assert(v@.subrange(1, v@.len() as int) =~= s@.skip(1));
    match parse_i64(rest.as_str()) {
        Some(mid) => if mid < cached_max_mid {
            mid
        } else {
            cached_max_mid
        },
        None => cached_max_mid,
    }
}

/// The oldest age in seconds a synced message may have: a first sync (from
/// message 0) takes only the last half minute.
pub fn max_age_seconds(since_mid: i64) -> (s: i64)
    ensures
        s == (if since_mid == 0 {
            INITIAL_MESSAGE_AGE_SECONDS
        } else {
            MAX_MESSAGE_AGE_SECONDS
        }),
{
    if since_mid == 0 {
        INITIAL_MESSAGE_AGE_SECONDS
    } else {
        MAX_MESSAGE_AGE_SECONDS
    }
}

/// Whether a message is for the bot and not from it: a direct message to the
/// bot, or a group message in a group the bot belongs to.
pub open spec fn to_bot(
    from_uid: i64,
    target: MessageTarget,
    bot_uid: i64,
    groups: Map<i64, CacheGroup>,
) -> bool {
    match target {
        MessageTarget::User { uid } => uid == bot_uid && from_uid != bot_uid,
        MessageTarget::Group { gid } => from_uid != bot_uid && groups.contains_key(gid) && (
        groups[gid].ty is Public || groups[gid].members@.contains(bot_uid)),
    }
}

/// Whether a message is sent to the bot.
pub fn is_message_to_bot(from_uid: i64, target: &MessageTarget, bot_uid: i64, cache: &Cache) -> (b:
    bool)
    ensures
        b == to_bot(from_uid, *target, bot_uid, cache.groups@),
{
    match target {
        MessageTarget::User { uid } => *uid == bot_uid && from_uid != bot_uid,
        MessageTarget::Group { gid } => {
            let in_group = match cache.groups.get(gid) {
                Some(g) => g.contains_user(bot_uid),
                None => false,
            };
            from_uid != bot_uid && in_group
        },
    }
}

/// Whether a message created at `created_at` is recent enough at `now`
/// (milliseconds): its age is at most `max_age_seconds`.
pub fn is_recent(now_millis: i64, created_at: i64, max_age_seconds: i64) -> (b: bool)
    requires
        i64::MIN <= now_millis - created_at <= i64::MAX,
        i64::MIN <= max_age_seconds * 1000 <= i64::MAX,
    ensures
        b == (now_millis - created_at <= max_age_seconds * 1000),
{
    now_millis - created_at <= max_age_seconds * 1000
}

// ----- event content -----

/// `s` with every occurrence of `pat`, from the left and without overlap,
/// replaced by `rep` (`str::replace`).
pub open spec fn replace_all(s: Seq<char>, pat: Seq<char>, rep: Seq<char>) -> Seq<char>
    decreases s.len(),
{
    if pat.len() == 0 || s.len() < pat.len() {
        s
    } else if s.take(pat.len() as int) == pat {
        rep + replace_all(s.skip(pat.len() as int), pat, rep)
    } else {
        seq![s[0]] + replace_all(s.skip(1), pat, rep)
    }
}

/// Replaces every occurrence of `pat` in `s` by `rep`.
fn replace_text(s: &Vec<char>, pat: &Vec<char>, rep: &Vec<char>) -> (r: Vec<char>)
    requires
        pat.len() > 0,
    ensures
        r@ == replace_all(s@, pat@, rep@),
{
    let mut out: Vec<char> = Vec::new();
    let mut i: usize = 0;
    assert(s@.skip(0) =~= s@);
    while i < s.len()
        invariant
            i <= s.len(),
            pat.len() > 0,
            out@ + replace_all(s@.skip(i as int), pat@, rep@) == replace_all(s@, pat@, rep@),
        decreases s.len() - i,
    {
        let ghost rest = s@.skip(i as int);
        if s.len() - i >= pat.len() && crate::text::occurs_at(s, pat, i) {
            assert(rest.take(pat@.len() as int) =~= s@.subrange(i as int, i + pat@.len()));
            assert(rest.skip(pat@.len() as int) =~= s@.skip(i + pat@.len()));
            let mut j: usize = 0;
            let ghost before = out@;
            while j < rep.len()
                invariant
                    j <= rep.len(),
                    out@ == before + rep@.take(j as int),
                decreases rep.len() - j,
            {
                out.push(rep[j]);
                j += 1;
                assert(out@ =~= before + rep@.take(j as int));
            }
            assert(rep@.take(rep@.len() as int) =~= rep@);
            i += pat.len();
            assert(out@ + replace_all(s@.skip(i as int), pat@, rep@) =~= before + (rep@
                + replace_all(rest.skip(pat@.len() as int), pat@, rep@)));
        } else {
            if s.len() - i >= pat.len() {
                assert(rest.take(pat@.len() as int) =~= s@.subrange(i as int, i + pat@.len()));
            }
            assert(rest.skip(1) =~= s@.skip(i + 1));
            out.push(s[i]);
            i += 1;
            assert(out@ + replace_all(s@.skip(i as int), pat@, rep@) =~= out@.drop_last() + (seq![
                rest[0]] + replace_all(rest.skip(1), pat@, rep@)));
        }
    }
    assert(s@.skip(i as int) =~= Seq::<char>::empty());
    assert(out@ + Seq::<char>::empty() =~= out@);
    out
}

/// A chat message content as it is synced: its type and text, the users it
/// mentions, and the file properties it carries (each when present with the
/// right JSON type).
#[derive(Debug, Clone)]
pub struct SyncedContent {
    pub content_type: String,
    pub content: String,
    pub mentions: Vec<i64>,
    pub file_content_type: Option<String>,
    pub file_name: Option<String>,
    pub file_size: Option<i64>,
}

/// The kinds of stored message a sync looks at.
#[derive(Debug, Clone)]
pub enum SyncedDetail {
    Normal(SyncedContent),
    Reply(SyncedContent),
    /// Reactions and every other kind, which are not synced.
    Other,
}

/// The content of a Matrix room message event. `mentions` is the
/// `m.mentions.user_ids` list, absent when no one is mentioned; `mimetype` and
/// `size` are the `info` of a file.
#[derive(Debug, Clone)]
pub struct RoomEventContent {
    pub msgtype: String,
    pub body: String,
    pub format: Option<String>,
    pub formatted_body: Option<String>,
    pub mentions: Option<Vec<String>>,
    pub url: Option<String>,
    pub mimetype: Option<String>,
    pub size: Option<i64>,
}

/// The mathematical value of a room event content.
#[verifier::ext_equal]
pub struct EventView {
    pub msgtype: Seq<char>,
    pub body: Seq<char>,
    pub format: Option<Seq<char>>,
    pub formatted_body: Option<Seq<char>>,
    pub mentions: Option<Seq<Seq<char>>>,
    pub url: Option<Seq<char>>,
    pub mimetype: Option<Seq<char>>,
    pub size: Option<i64>,
}

/// The characters of an optional string.
pub open spec fn opt_seq(s: Option<String>) -> Option<Seq<char>> {
    match s {
        Some(t) => Some(t@),
        None => None,
    }
}

impl View for RoomEventContent {
    type V = EventView;

    open spec fn view(&self) -> EventView {
        EventView {
            msgtype: self.msgtype@,
            body: self.body@,
            format: opt_seq(self.format),
            formatted_body: opt_seq(self.formatted_body),
            mentions: match self.mentions {
                Some(m) => Some(m@.map_values(|x: String| x@)),
                None => None,
            },
            url: opt_seq(self.url),
            mimetype: opt_seq(self.mimetype),
            size: self.size,
        }
    }
}

/// The mentioned users the cache knows, in order, with their names.
pub open spec fn mention_info(uids: Seq<i64>, users: Map<i64, CacheUser>) -> Seq<(i64, Seq<char>)>
    decreases uids.len(),
{
    if uids.len() == 0 {
        Seq::empty()
    } else {
        let rest = mention_info(uids.drop_last(), users);
        let uid = uids.last();
        if users.contains_key(uid) {
            rest.push((uid, users[uid].name@))
        } else {
            rest
        }
    }
}

/// The Matrix id of a user: `@<name>:<domain>`.
pub open spec fn matrix_user_id(name: Seq<char>, domain: Seq<char>) -> Seq<char> {
    "@"@ + name + ":"@ + domain
}

/// How a mention `@<uid>` is written in the plain body: `@<name>`.
pub open spec fn plain_mention(name: Seq<char>) -> Seq<char> {
    "@"@ + name
}

/// How a mention `@<uid>` is written in the HTML body: a link to the user.
pub open spec fn html_mention(name: Seq<char>, domain: Seq<char>) -> Seq<char> {
    "<a href=\"https://matrix.to/#/"@ + matrix_user_id(name, domain) + "\">"@ + name + "</a>"@
}

/// `s` with the first `k` mentions of `info` written out, in order; `html`
/// chooses the HTML form.
pub open spec fn with_mentions(
    s: Seq<char>,
    info: Seq<(i64, Seq<char>)>,
    k: int,
    html: bool,
    domain: Seq<char>,
) -> Seq<char>
    decreases k,
{
    if k <= 0 || k > info.len() {
        s
    } else {
        let prev = with_mentions(s, info, k - 1, html, domain);
        let (uid, name) = info[k - 1];
        replace_all(
            prev,
            "@"@ + int_text(uid as int),
            if html {
                html_mention(name, domain)
            } else {
                plain_mention(name)
            },
        )
    }
}

/// The event content of a text or file message sent by a vachat user.
pub open spec fn event_of(c: SyncedContent, users: Map<i64, CacheUser>, domain: Seq<char>) -> EventView {
    let info = mention_info(c.mentions@, users);
    let body = with_mentions(c.content@, info, info.len() as int, false, domain);
    let html = if info.len() > 0 {
        Some(with_mentions(c.content@, info, info.len() as int, true, domain))
    } else {
        None
    };
    let mentions = if info.len() > 0 {
        Some(info.map_values(|m: (i64, Seq<char>)| matrix_user_id(m.1, domain)))
    } else {
        None
    };
    let t = c.content_type@;
    if t == "text/plain"@ {
        EventView {
            msgtype: "m.text"@,
            body,
            format: if html is Some {
                Some("org.matrix.custom.html"@)
            } else {
                None
            },
            formatted_body: html,
            mentions,
            url: None,
            mimetype: None,
            size: None,
        }
    } else if t == "text/markdown"@ {
        EventView {
            msgtype: "m.text"@,
            body,
            format: Some("org.matrix.custom.html"@),
            formatted_body: Some(
                match html {
                    Some(h) => h,
                    None => c.content@,
                },
            ),
            mentions,
            url: None,
            mimetype: None,
            size: None,
        }
    } else if t == "vachat/file"@ || t == "vachat/archive"@ {
        let mime = match c.file_content_type {
            Some(m) => m@,
            None => "application/octet-stream"@,
        };
        EventView {
            msgtype: if is_prefix("image/"@, mime) {
                "m.image"@
            } else {
                "m.file"@
            },
            body: match c.file_name {
                Some(n) => n@,
                None => c.content@,
            },
            format: None,
            formatted_body: None,
            mentions: None,
            url: Some("mxc://"@ + domain + "/"@ + replace_all(c.content@, "/"@, "_"@)),
            mimetype: Some(mime),
            size: Some(
                match c.file_size {
                    Some(z) => z,
                    None => 0,
                },
            ),
        }
    } else {
        EventView {
            msgtype: "m.text"@,
            body,
            format: None,
            formatted_body: None,
            mentions: None,
            url: None,
            mimetype: None,
            size: None,
        }
    }
}

/// `s` with the mentions `@<uid>` of the users in `uids` that `users` knows
/// written out, one user after the other in the order of `uids`: each text
/// `@<uid>` becomes `@<name>`, or with `html` a link to the user.
pub open spec fn mentions_written(
    s: Seq<char>,
    uids: Seq<i64>,
    users: Map<i64, CacheUser>,
    html: bool,
    domain: Seq<char>,
) -> Seq<char>
    decreases uids.len(),
{
    if uids.len() == 0 {
        s
    } else {
        let prev = mentions_written(s, uids.drop_last(), users, html, domain);
        let uid = uids.last();
        if users.contains_key(uid) {
            let name = users[uid].name@;
            replace_all(
                prev,
                "@"@ + int_text(uid as int),
                if html {
                    html_mention(name, domain)
                } else {
                    "@"@ + name
                },
            )
        } else {
            prev
        }
    }
}

/// Writing out the first `k` mentions reads only the first `k` entries.
proof fn lemma_with_mentions_prefix(
    s: Seq<char>,
    a: Seq<(i64, Seq<char>)>,
    b: Seq<(i64, Seq<char>)>,
    k: int,
    html: bool,
    domain: Seq<char>,
)
    requires
        0 <= k <= a.len(),
        k <= b.len(),
        forall|i: int| 0 <= i < k ==> a[i] == b[i],
    ensures
        with_mentions(s, a, k, html, domain) == with_mentions(s, b, k, html, domain),
    decreases k,
{
    if k > 0 {
        lemma_with_mentions_prefix(s, a, b, k - 1, html, domain);
    }
}

/// The mentions of an event are written out user by user, in the order the
/// message names them, for the users the cache knows.
proof fn lemma_mentions_written(
    s: Seq<char>,
    uids: Seq<i64>,
    users: Map<i64, CacheUser>,
    html: bool,
    domain: Seq<char>,
)
    ensures
        with_mentions(
            s,
            mention_info(uids, users),
            mention_info(uids, users).len() as int,
            html,
            domain,
        ) == mentions_written(s, uids, users, html, domain),
    decreases uids.len(),
{
    if uids.len() > 0 {
        let rest = mention_info(uids.drop_last(), users);
        let info = mention_info(uids, users);
        lemma_mentions_written(s, uids.drop_last(), users, html, domain);
        if users.contains_key(uids.last()) {
            assert(info == rest.push((uids.last(), users[uids.last()].name@)));
            lemma_with_mentions_prefix(s, info, rest, rest.len() as int, html, domain);
            reveal_strlit("@");
        }
    }
}

/// The plain body of a text event is the message with each mention `@<uid>`
/// of a user the cache knows replaced by `@<name>`, user by user in the order
/// the message names them; a formatted body holds the same mentions as links.
pub proof fn lemma_text_body_names_mentions(c: SyncedContent, users: Map<i64, CacheUser>, domain: Seq<char>)
    requires
        c.content_type@ != "vachat/file"@,
        c.content_type@ != "vachat/archive"@,
    ensures
        event_of(c, users, domain).body == mentions_written(c.content@, c.mentions@, users, false, domain),
        event_of(c, users, domain).formatted_body matches Some(h) ==> (c.content_type@ == "text/plain"@
            || c.content_type@ == "text/markdown"@) && h == mentions_written(
            c.content@,
            c.mentions@,
            users,
            true,
            domain,
        ),
{
    lemma_mentions_written(c.content@, c.mentions@, users, false, domain);
    lemma_mentions_written(c.content@, c.mentions@, users, true, domain);
    let info = mention_info(c.mentions@, users);
    if info.len() == 0 {
        assert(with_mentions(c.content@, info, 0, true, domain) == c.content@);
    }
}

/// The characters of a text.
fn chars_of(s: &str) -> (v: Vec<char>)
    ensures
        v@ == s@,
{
    str_chars(s)
}

/// The string of all the characters `v`.
fn string_of(v: &Vec<char>) -> (s: String)
    ensures
        s@ == v@,
{
    assert(v@.subrange(0, v@.len() as int) =~= v@);
    chars_string(v, 0, v.len())
}

/// `a` followed by `b`.
fn concat(a: &Vec<char>, b: &Vec<char>) -> (r: Vec<char>)
    ensures
        r@ == a@ + b@,
{
    let mut r = a.clone();
    let mut i: usize = 0;
    while i < b.len()
        invariant
            i <= b.len(),
            r@ == a@ + b@.take(i as int),
        decreases b.len() - i,
    {
        r.push(b[i]);
        i += 1;
        assert(r@ =~= a@ + b@.take(i as int));
    }
    assert(b@.take(b@.len() as int) =~= b@);
    r
}

/// The mentioned users the cache knows, with their names.
fn collect_mentions(uids: &Vec<i64>, users: &BTreeMap<i64, CacheUser>) -> (r: Vec<(i64, Vec<char>)>)
    ensures
        r@.map_values(|m: (i64, Vec<char>)| (m.0, m.1@)) == mention_info(uids@, users@),
{
    let mut r: Vec<(i64, Vec<char>)> = Vec::new();
    let mut i: usize = 0;
    while i < uids.len()
        invariant
            i <= uids.len(),
            r@.map_values(|m: (i64, Vec<char>)| (m.0, m.1@)) == mention_info(
                uids@.take(i as int),
                users@,
            ),
        decreases uids.len() - i,
    {
        assert(uids@.take(i + 1).drop_last() =~= uids@.take(i as int));
        let uid = uids[i];
        match users.get(&uid) {
            Some(u) => {
                r.push((uid, chars_of(u.name.as_str())));
            },
            None => {},
        }
        i += 1;
        assert(r@.map_values(|m: (i64, Vec<char>)| (m.0, m.1@)) =~= mention_info(
            uids@.take(i as int),
            users@,
        ));
    }
    assert(uids@.take(uids.len() as int) =~= uids@);
    r
}

/// `content` with the mentions written out.
fn write_mentions(
    content: &Vec<char>,
    info: &Vec<(i64, Vec<char>)>,
    html: bool,
    domain: &Vec<char>,
) -> (r: Vec<char>)
    ensures
        r@ == with_mentions(
            content@,
            info@.map_values(|m: (i64, Vec<char>)| (m.0, m.1@)),
            info@.len() as int,
            html,
            domain@,
        ),
{
    let ghost iv = info@.map_values(|m: (i64, Vec<char>)| (m.0, m.1@));
    let mut s = content.clone();
    let at = chars_of("@");
    let mut k: usize = 0;
    while k < info.len()
        invariant
            k <= info.len(),
            iv == info@.map_values(|m: (i64, Vec<char>)| (m.0, m.1@)),
            at@ == "@"@,
            s@ == with_mentions(content@, iv, k as int, html, domain@),
        decreases info.len() - k,
    {
        let uid = info[k].0;
        let pat = concat(&at, &format_i64(uid));
        proof {
            reveal_strlit("@");
        }
        let name = &info[k].1;
        let rep = if html {
            let mut id = concat(&at, name);
            id = concat(&id, &chars_of(":"));
            id = concat(&id, domain);
            let mut link = concat(&chars_of("<a href=\"https://matrix.to/#/"), &id);
            link = concat(&link, &chars_of("\">"));
            link = concat(&link, name);
            concat(&link, &chars_of("</a>"))
        } else {
            concat(&at, name)
        };
        s = replace_text(&s, &pat, &rep);
        k += 1;
    }
    s
}

/// The media id of a stored file path: its `/` made `_`.
fn media_id(path: &Vec<char>) -> (r: Vec<char>)
    ensures
        r@ == replace_all(path@, "/"@, "_"@),
{
    proof {
        reveal_strlit("/");
    }
    replace_text(path, &chars_of("/"), &chars_of("_"))
}

/// Builds the event content of a synced chat message.
pub fn room_event_content(c: &SyncedContent, cache: &Cache, matrix_domain: &str) -> (r:
    RoomEventContent)
    ensures
        r@ == event_of(*c, cache.users@, matrix_domain@),
        c.content_type@ != "vachat/file"@ && c.content_type@ != "vachat/archive"@ ==> r.body@
            == mentions_written(c.content@, c.mentions@, cache.users@, false, matrix_domain@),
{
    proof {
        if c.content_type@ != "vachat/file"@ && c.content_type@ != "vachat/archive"@ {
            lemma_text_body_names_mentions(*c, cache.users@, matrix_domain@);
        }
    }
    let domain = chars_of(matrix_domain);
    let content = chars_of(c.content.as_str());
    let info = collect_mentions(&c.mentions, &cache.users);
    let ghost iv = info@.map_values(|m: (i64, Vec<char>)| (m.0, m.1@));
    let body = string_of(&write_mentions(&content, &info, false, &domain));
    let html = if info.len() > 0 {
        Some(string_of(&write_mentions(&content, &info, true, &domain)))
    } else {
        None
    };
    let mentions = if info.len() > 0 {
        let mut ids: Vec<String> = Vec::new();
        let mut k: usize = 0;
        while k < info.len()
            invariant
                k <= info.len(),
                iv == info@.map_values(|m: (i64, Vec<char>)| (m.0, m.1@)),
                domain@ == matrix_domain@,
                ids@.map_values(|x: String| x@) == iv.take(k as int).map_values(
                    |m: (i64, Seq<char>)| matrix_user_id(m.1, domain@),
                ),
            decreases info.len() - k,
        {
            let mut id = concat(&chars_of("@"), &info[k].1);
            id = concat(&id, &chars_of(":"));
            id = concat(&id, &domain);
            assert(iv[k as int].1 == info@[k as int].1@);
            assert(id@ =~= matrix_user_id(iv[k as int].1, domain@));
            let ghost prev = ids@.map_values(|x: String| x@);
            ids.push(string_of(&id));
            assert(ids@.map_values(|x: String| x@) =~= prev.push(
                matrix_user_id(iv[k as int].1, domain@),
            ));
            assert(iv.take(k + 1).map_values(|m: (i64, Seq<char>)| matrix_user_id(m.1, domain@))
                =~= iv.take(k as int).map_values(
                |m: (i64, Seq<char>)| matrix_user_id(m.1, domain@),
            ).push(matrix_user_id(iv[k as int].1, domain@)));
            k += 1;
        }
        assert(iv.take(info.len() as int) =~= iv);
        Some(ids)
    } else {
        None
    };
    let t = c.content_type.as_str();
    if str_equal(t, "text/plain") {
        let format = if html.is_some() {
            Some("org.matrix.custom.html".to_owned())
        } else {
            None
        };
        RoomEventContent {
            msgtype: "m.text".to_owned(),
            body,
            format,
            formatted_body: html,
            mentions,
            url: None,
            mimetype: None,
            size: None,
        }
    } else if str_equal(t, "text/markdown") {
        let formatted = match html {
            Some(h) => h,
            None => c.content.clone(),
        };
        RoomEventContent {
            msgtype: "m.text".to_owned(),
            body,
            format: Some("org.matrix.custom.html".to_owned()),
            formatted_body: Some(formatted),
            mentions,
            url: None,
            mimetype: None,
            size: None,
        }
    } else if str_equal(t, "vachat/file") || str_equal(t, "vachat/archive") {
        let mime = match &c.file_content_type {
            Some(m) => m.clone(),
            None => "application/octet-stream".to_owned(),
        };
        let msgtype = if str_has_prefix(mime.as_str(), "image/") {
            "m.image".to_owned()
        } else {
            "m.file".to_owned()
        };
        let filename = match &c.file_name {
            Some(n) => n.clone(),
            None => c.content.clone(),
        };
        let mut url = concat(&chars_of("mxc://"), &domain);
        url = concat(&url, &chars_of("/"));
        url = concat(&url, &media_id(&content));
        let size = match c.file_size {
            Some(z) => z,
            None => 0,
        };
        RoomEventContent {
            msgtype,
            body: filename,
            format: None,
            formatted_body: None,
            mentions: None,
            url: Some(string_of(&url)),
            mimetype: Some(mime),
            size: Some(size),
        }
    } else {
        RoomEventContent {
            msgtype: "m.text".to_owned(),
            body,
            format: None,
            formatted_body: None,
            mentions: None,
            url: None,
            mimetype: None,
            size: None,
        }
    }
}

/// Extracts the room event content of a stored message: normal messages and
/// replies are synced, other kinds are not.
pub fn extract_message_content(detail: &SyncedDetail, cache: &Cache, matrix_domain: &str) -> (r:
    Option<RoomEventContent>)
    ensures
        match *detail {
            SyncedDetail::Normal(c) | SyncedDetail::Reply(c) => r matches Some(e) && e@ == event_of(
                c,
                cache.users@,
                matrix_domain@,
            ),
            SyncedDetail::Other => r is None,
        },
{
    match detail {
        SyncedDetail::Normal(c) => Some(room_event_content(c, cache, matrix_domain)),
        SyncedDetail::Reply(c) => Some(room_event_content(c, cache, matrix_domain)),
        SyncedDetail::Other => None,
    }
}

// ----- messages synced to bots -----

/// A stored chat message, as a sync reads it. Times are milliseconds since the epoch.
#[derive(Debug, Clone)]
pub struct StoredMessage {
    pub mid: i64,
    pub from_uid: i64,
    pub target: MessageTarget,
    pub created_at: i64,
    pub detail: SyncedDetail,
}

/// A message event of a sync response.
#[derive(Debug, Clone)]
pub struct MessageEvent {
    pub mid: i64,
    pub from_uid: i64,
    pub room_id: String,
    pub sender: String,
    pub content: RoomEventContent,
    pub timestamp: i64,
}

/// The Matrix id of the sender of a message: its name, or `unknown` when the
/// cache does not know it.
pub open spec fn sender_id(from_uid: i64, users: Map<i64, CacheUser>, domain: Seq<char>) -> Seq<char> {
    matrix_user_id(
        if users.contains_key(from_uid) {
            users[from_uid].name@
        } else {
            "unknown"@
        },
        domain,
    )
}

/// Whether a stored message is synced to the bot at `now`: it is sent to the
/// bot, recent enough, and of a kind that is synced.
pub open spec fn synced_to_bot(
    m: StoredMessage,
    bot_uid: i64,
    cache: Cache,
    now_millis: i64,
    max_age_seconds: i64,
) -> bool {
    &&& to_bot(m.from_uid, m.target, bot_uid, cache.groups@)
    &&& now_millis - m.created_at <= max_age_seconds * 1000
    &&& !(m.detail is Other)
}

/// The content of a synced kind of message.
pub open spec fn detail_content(d: SyncedDetail) -> SyncedContent {
    match d {
        SyncedDetail::Normal(c) => c,
        SyncedDetail::Reply(c) => c,
        SyncedDetail::Other => arbitrary(),
    }
}

/// Turns a stored message into the event synced to the bot, when it is synced.
pub fn process_message(
    m: &StoredMessage,
    bot_uid: i64,
    cache: &Cache,
    now_millis: i64,
    max_age_seconds: i64,
    matrix_domain: &str,
) -> (r: Option<MessageEvent>)
    requires
        i64::MIN <= now_millis - m.created_at <= i64::MAX,
        i64::MIN <= max_age_seconds * 1000 <= i64::MAX,
    ensures
        match r {
            Some(e) => {
                &&& synced_to_bot(*m, bot_uid, *cache, now_millis, max_age_seconds)
                &&& e.mid == m.mid
                &&& e.from_uid == m.from_uid
                &&& e.room_id@ == crate::rooms::room_id_of(m.from_uid, m.target, matrix_domain@)
                &&& e.sender@ == sender_id(m.from_uid, cache.users@, matrix_domain@)
                &&& e.content@ == event_of(detail_content(m.detail), cache.users@, matrix_domain@)
                &&& e.timestamp == m.created_at
            },
            None => !synced_to_bot(*m, bot_uid, *cache, now_millis, max_age_seconds),
        },
{
    if !is_message_to_bot(m.from_uid, &m.target, bot_uid, cache) {
        return None;
    }
    if !is_recent(now_millis, m.created_at, max_age_seconds) {
        return None;
    }
    let content = match extract_message_content(&m.detail, cache, matrix_domain) {
        Some(c) => c,
        None => return None,
    };
    let name = match cache.users.get(&m.from_uid) {
        Some(u) => chars_of(u.name.as_str()),
        None => chars_of("unknown"),
    };
    let mut sender = concat(&chars_of("@"), &name);
    sender = concat(&sender, &chars_of(":"));
    sender = concat(&sender, &chars_of(matrix_domain));
    Some(
        MessageEvent {
            mid: m.mid,
            from_uid: m.from_uid,
            room_id: crate::rooms::get_room_id(m.from_uid, &m.target, matrix_domain),
            sender: string_of(&sender),
            content,
            timestamp: m.created_at,
        },
    )
}

/// Milliseconds within which a text follows a file it captions.
pub const CAPTION_WINDOW_MS: i64 = 60000;

/// The file message a text captions, for each event in order: the last file
/// message of the same sender in the same room before it, when their times
/// lie less than a minute apart. File messages caption nothing.
pub open spec fn caption_links(events: Seq<(Seq<char>, Seq<char>, bool, i64, i64)>) -> Seq<
    Option<i64>,
> {
    Seq::new(
        events.len(),
        |i: int|
            {
                let (room, sender, is_media, mid, ts) = events[i];
                if is_media {
                    None
                } else {
                    match last_media_before(events, room, sender, i) {
                        Some(j) => {
                            let media_ts = events[j].4;
                            if -CAPTION_WINDOW_MS < ts - media_ts < CAPTION_WINDOW_MS {
                                Some(events[j].3)
                            } else {
                                None
                            }
                        },
                        None => None,
                    }
                }
            },
    )
}

/// The index of the last file message of `sender` in `room` before index `i`.
pub open spec fn last_media_before(
    events: Seq<(Seq<char>, Seq<char>, bool, i64, i64)>,
    room: Seq<char>,
    sender: Seq<char>,
    i: int,
) -> Option<int>
    decreases i,
{
    if i <= 0 {
        None
    } else {
        let e = events[i - 1];
        if e.2 && e.0 == room && e.1 == sender {
            Some(i - 1)
        } else {
            last_media_before(events, room, sender, i - 1)
        }
    }
}

/// The facts of an event that caption linking reads: room, sender, whether
/// it carries a file, mid and time.
pub open spec fn caption_facts(events: Seq<MessageEvent>) -> Seq<(Seq<char>, Seq<char>, bool, i64, i64)> {
    events.map_values(
        |e: MessageEvent| (e.room_id@, e.sender@, e.content.url is Some, e.mid, e.timestamp),
    )
}

/// The index of the last file message before index `i` from the sender of
/// event `i` in its room.
fn find_last_media(events: &Vec<MessageEvent>, i: usize) -> (r: Option<usize>)
    requires
        i < events.len(),
    ensures
        match r {
            Some(j) => last_media_before(
                caption_facts(events@),
                caption_facts(events@)[i as int].0,
                caption_facts(events@)[i as int].1,
                i as int,
            ) == Some(j as int) && j < i,
            None => last_media_before(
                caption_facts(events@),
                caption_facts(events@)[i as int].0,
                caption_facts(events@)[i as int].1,
                i as int,
            ) is None,
        },
{
    let ghost f = caption_facts(events@);
    let e = &events[i];
    assert(f[i as int] == (e.room_id@, e.sender@, e.content.url is Some, e.mid, e.timestamp));
    let mut j = i;
    while j > 0
        invariant
            j <= i < events.len(),
            f == caption_facts(events@),
            f[i as int] == (e.room_id@, e.sender@, e.content.url is Some, e.mid, e.timestamp),
            last_media_before(f, f[i as int].0, f[i as int].1, i as int) == last_media_before(
                f,
                f[i as int].0,
                f[i as int].1,
                j as int,
            ),
        decreases j,
    {
        let c = &events[j - 1];
        assert(f[j - 1] == (c.room_id@, c.sender@, c.content.url is Some, c.mid, c.timestamp));
        if c.content.url.is_some() && str_equal(c.room_id.as_str(), e.room_id.as_str())
            && str_equal(c.sender.as_str(), e.sender.as_str()) {
            return Some(j - 1);
        }
        j -= 1;
    }
    None
}

/// The file message each event captions (`m.reference`), in order.
pub fn link_captions(events: &Vec<MessageEvent>) -> (r: Vec<Option<i64>>)
    ensures
        r@ == caption_links(caption_facts(events@)),
{
    let ghost f = caption_facts(events@);
    let mut r: Vec<Option<i64>> = Vec::new();
    let mut i: usize = 0;
    while i < events.len()
        invariant
            i <= events.len(),
            f == caption_facts(events@),
            r@.len() == i,
            forall|k: int| 0 <= k < i ==> r@[k] == caption_links(f)[k],
        decreases events.len() - i,
    {
        let e = &events[i];
        let link = if e.content.url.is_some() {
            None
        } else {
            match find_last_media(events, i) {
                Some(j) => {
                    let d: i128 = e.timestamp as i128 - events[j].timestamp as i128;
                    if -60000 < d && d < 60000 {
                        Some(events[j].mid)
                    } else {
                        None
                    }
                },
                None => None,
            }
        };
        assert(link == caption_links(f)[i as int]);
        r.push(link);
        i += 1;
    }
    assert(r@ =~= caption_links(f));
    r
}

// ----- selecting and grouping the synced messages -----

/// `e` is the event a sync gives for the stored message `m`.
pub open spec fn event_for(e: MessageEvent, m: StoredMessage, cache: Cache, domain: Seq<char>) -> bool {
    &&& e.mid == m.mid
    &&& e.from_uid == m.from_uid
    &&& e.room_id@ == crate::rooms::room_id_of(m.from_uid, m.target, domain)
    &&& e.sender@ == sender_id(m.from_uid, cache.users@, domain)
    &&& e.content@ == event_of(detail_content(m.detail), cache.users@, domain)
    &&& e.timestamp == m.created_at
}

/// Whether the stored message is synced to one of the bots.
pub open spec fn synced_to_any(
    m: StoredMessage,
    bots: Seq<i64>,
    cache: Cache,
    now_millis: i64,
    max_age_seconds: i64,
) -> bool {
    exists|k: int| 0 <= k < bots.len() && synced_to_bot(m, #[trigger] bots[k], cache, now_millis, max_age_seconds)
}

/// The position of the first message synced to one of the bots with the id `mid`.
pub open spec fn first_with_mid(
    msgs: Seq<StoredMessage>,
    mid: i64,
    bots: Seq<i64>,
    cache: Cache,
    now_millis: i64,
    max_age_seconds: i64,
) -> int
    recommends
        exists|i: int|
            0 <= i < msgs.len() && #[trigger] msgs[i].mid == mid && synced_to_any(
                msgs[i],
                bots,
                cache,
                now_millis,
                max_age_seconds,
            ),
{
    choose|i: int|
        0 <= i < msgs.len() && msgs[i].mid == mid && synced_to_any(
            msgs[i],
            bots,
            cache,
            now_millis,
            max_age_seconds,
        ) && forall|j: int|
            0 <= j < i ==> !(#[trigger] msgs[j].mid == mid && synced_to_any(
                msgs[j],
                bots,
                cache,
                now_millis,
                max_age_seconds,
            ))
}

/// Whether one of the events has the id `mid`.
pub open spec fn has_mid(events: Seq<MessageEvent>, mid: i64) -> bool {
    exists|k: int| 0 <= k < events.len() && #[trigger] events[k].mid == mid
}

/// Whether one of the first `n` messages has the id `mid` and is synced to one of the bots.
pub open spec fn synced_mid(
    msgs: Seq<StoredMessage>,
    n: int,
    mid: i64,
    bots: Seq<i64>,
    cache: Cache,
    now_millis: i64,
    max_age_seconds: i64,
) -> bool {
    exists|j: int|
        0 <= j < n && #[trigger] msgs[j].mid == mid && synced_to_any(
            msgs[j],
            bots,
            cache,
            now_millis,
            max_age_seconds,
        )
}

/// Whether message ids are strictly increasing.
pub open spec fn mids_increasing(events: Seq<MessageEvent>) -> bool {
    forall|i: int, j: int| 0 <= i < j < events.len() ==> events[i].mid < events[j].mid
}

/// The events a sync gives for the stored messages `msgs` and the bots
/// `bots`: for each id of a message synced to one of the bots, in
/// increasing order, the event of the first such message with that id.
pub open spec fn selected(
    r: Seq<MessageEvent>,
    msgs: Seq<StoredMessage>,
    bots: Seq<i64>,
    cache: Cache,
    now_millis: i64,
    max_age_seconds: i64,
    domain: Seq<char>,
) -> bool {
    &&& mids_increasing(r)
    &&& forall|mid: i64|
        #[trigger] has_mid(r, mid) <==> synced_mid(msgs, msgs.len() as int, mid, bots, cache, now_millis, max_age_seconds)
    &&& forall|k: int|
        0 <= k < r.len() ==> event_for(
            #[trigger] r[k],
            msgs[first_with_mid(msgs, r[k].mid, bots, cache, now_millis, max_age_seconds)],
            cache,
            domain,
        )
}

/// The event for the message for the first of the bots it is synced to.
fn event_for_bots(
    m: &StoredMessage,
    bots: &Vec<i64>,
    cache: &Cache,
    now_millis: i64,
    max_age_seconds: i64,
    matrix_domain: &str,
) -> (r: Option<MessageEvent>)
    requires
        i64::MIN <= now_millis - m.created_at <= i64::MAX,
        i64::MIN <= max_age_seconds * 1000 <= i64::MAX,
    ensures
        match r {
            Some(e) => synced_to_any(*m, bots@, *cache, now_millis, max_age_seconds) && event_for(
                e,
                *m,
                *cache,
                matrix_domain@,
            ),
            None => !synced_to_any(*m, bots@, *cache, now_millis, max_age_seconds),
        },
{
    let mut k: usize = 0;
    while k < bots.len()
        invariant
            k <= bots.len(),
            i64::MIN <= now_millis - m.created_at <= i64::MAX,
            i64::MIN <= max_age_seconds * 1000 <= i64::MAX,
            forall|j: int|
                0 <= j < k ==> !synced_to_bot(*m, #[trigger] bots@[j], *cache, now_millis, max_age_seconds),
        decreases bots.len() - k,
    {
        match process_message(m, bots[k], cache, now_millis, max_age_seconds, matrix_domain) {
            Some(e) => {
                return Some(e);
            },
            None => {},
        }
        k += 1;
    }
    None
}

/// Adds an event to events in strictly increasing id order, unless one with
/// its id is there; whether it was added.
fn insert_by_mid(r: &mut Vec<MessageEvent>, e: MessageEvent) -> (added: bool)
    requires
        mids_increasing(old(r)@),
    ensures
        mids_increasing(final(r)@),
        added == !has_mid(old(r)@, e.mid),
        forall|mid: i64| #[trigger] has_mid(final(r)@, mid) <==> (has_mid(old(r)@, mid) || mid == e.mid),
        forall|x: MessageEvent|
            #[trigger] final(r)@.contains(x) ==> old(r)@.contains(x) || (added && x == e),
{
    let mut p: usize = 0;
    while p < r.len() && r[p].mid < e.mid
        invariant
            p <= r.len(),
            forall|k: int| 0 <= k < p ==> r@[k].mid < e.mid,
        decreases r.len() - p,
    {
        p += 1;
    }
    let ghost r0 = r@;
    proof {
        assert forall|k: int| p <= k < r0.len() implies r0[k].mid >= e.mid by {
            if k > p {
                assert(r0[p as int].mid < r0[k].mid);
            }
        }
    }
    if p < r.len() && r[p].mid == e.mid {
        assert(has_mid(r0, e.mid));
        return false;
    }
    proof {
        assert forall|k: int| 0 <= k < r0.len() implies r0[k].mid != e.mid by {}
    }
    let ghost ev = e;
    r.insert(p, e);
    proof {
        assert forall|a: int, b: int| 0 <= a < b < r@.len() implies r@[a].mid < r@[b].mid by {
            if b < p {
                assert(r@[a] == r0[a] && r@[b] == r0[b]);
            } else if b == p {
                assert(r@[a] == r0[a]);
            } else if a < p {
                assert(r@[a] == r0[a] && r@[b] == r0[b - 1]);
            } else if a == p {
                assert(r@[b] == r0[b - 1]);
            } else {
                assert(r@[a] == r0[a - 1] && r@[b] == r0[b - 1]);
            }
        }
        assert forall|mid: i64| #[trigger] has_mid(r@, mid) <==> (has_mid(r0, mid) || mid == ev.mid) by {
            if has_mid(r@, mid) {
                let k = choose|k: int| 0 <= k < r@.len() && #[trigger] r@[k].mid == mid;
                if k < p {
                    assert(r0[k].mid == mid);
                } else if k > p {
                    assert(r0[k - 1].mid == mid);
                }
            }
            if has_mid(r0, mid) {
                let k = choose|k: int| 0 <= k < r0.len() && #[trigger] r0[k].mid == mid;
                if k < p {
                    assert(r@[k].mid == mid);
                } else {
                    assert(r@[k + 1].mid == mid);
                }
            }
            if mid == ev.mid {
                assert(r@[p as int].mid == mid);
            }
        }
        assert forall|x: MessageEvent| #[trigger] r@.contains(x) implies r0.contains(x) || x == ev by {
            let k = choose|k: int| 0 <= k < r@.len() && r@[k] == x;
            if k < p {
                assert(r0[k] == x);
            } else if k > p {
                assert(r0[k - 1] == x);
            }
        }
    }
    true
}

/// `x` is the event of the first message among the first `n` with its id
/// that is synced to one of the bots.
pub open spec fn first_event(
    x: MessageEvent,
    msgs: Seq<StoredMessage>,
    n: int,
    bots: Seq<i64>,
    cache: Cache,
    now_millis: i64,
    max_age_seconds: i64,
    domain: Seq<char>,
) -> bool {
    exists|j: int|
        0 <= j < n && msgs[j].mid == x.mid && synced_to_any(
            msgs[j],
            bots,
            cache,
            now_millis,
            max_age_seconds,
        ) && !synced_mid(msgs, j, x.mid, bots, cache, now_millis, max_age_seconds) && event_for(
            x,
            msgs[j],
            cache,
            domain,
        )
}

/// The events a sync gives for the stored messages and the bots: each
/// message synced to one of the bots, at most one per id (the first),
/// in increasing id order.
pub fn select_bot_messages(
    msgs: &Vec<StoredMessage>,
    bots: &Vec<i64>,
    cache: &Cache,
    now_millis: i64,
    max_age_seconds: i64,
    matrix_domain: &str,
) -> (r: Vec<MessageEvent>)
    requires
        forall|i: int| 0 <= i < msgs@.len() ==> i64::MIN <= now_millis - (#[trigger] msgs@[i]).created_at <= i64::MAX,
        i64::MIN <= max_age_seconds * 1000 <= i64::MAX,
    ensures
        selected(r@, msgs@, bots@, *cache, now_millis, max_age_seconds, matrix_domain@),
{
    let mut r: Vec<MessageEvent> = Vec::new();
    let mut i: usize = 0;
    while i < msgs.len()
        invariant
            i <= msgs.len(),
            forall|i: int| 0 <= i < msgs@.len() ==> i64::MIN <= now_millis - (#[trigger] msgs@[i]).created_at <= i64::MAX,
            i64::MIN <= max_age_seconds * 1000 <= i64::MAX,
            mids_increasing(r@),
            forall|mid: i64|
                #[trigger] has_mid(r@, mid) <==> synced_mid(msgs@, i as int, mid, bots@, *cache, now_millis, max_age_seconds),
            forall|x: MessageEvent|
                #[trigger] r@.contains(x) ==> first_event(
                    x,
                    msgs@,
                    i as int,
                    bots@,
                    *cache,
                    now_millis,
                    max_age_seconds,
                    matrix_domain@,
                ),
        decreases msgs.len() - i,
    {
        let m = &msgs[i];
        let ghost r0 = r@;
        proof {
            assert forall|mid: i64| #[trigger] synced_mid(msgs@, i + 1, mid, bots@, *cache, now_millis, max_age_seconds)
                <==> (synced_mid(msgs@, i as int, mid, bots@, *cache, now_millis, max_age_seconds) || (
                msgs@[i as int].mid == mid && synced_to_any(msgs@[i as int], bots@, *cache, now_millis, max_age_seconds))) by {
                if synced_mid(msgs@, i + 1, mid, bots@, *cache, now_millis, max_age_seconds) {
                    let j = choose|j: int|
                        0 <= j < i + 1 && #[trigger] msgs@[j].mid == mid && synced_to_any(
                            msgs@[j],
                            bots@,
                            *cache,
                            now_millis,
                            max_age_seconds,
                        );
                    if j < i {
                        assert(synced_mid(msgs@, i as int, mid, bots@, *cache, now_millis, max_age_seconds));
                    }
                }
                if synced_mid(msgs@, i as int, mid, bots@, *cache, now_millis, max_age_seconds) {
                    let j = choose|j: int|
                        0 <= j < i && #[trigger] msgs@[j].mid == mid && synced_to_any(
                            msgs@[j],
                            bots@,
                            *cache,
                            now_millis,
                            max_age_seconds,
                        );
                    assert(0 <= j < i + 1);
                }
            }
            assert forall|x: MessageEvent| first_event(x, msgs@, i as int, bots@, *cache, now_millis, max_age_seconds, matrix_domain@)
                implies #[trigger] first_event(x, msgs@, i + 1, bots@, *cache, now_millis, max_age_seconds, matrix_domain@) by {
                let j = choose|j: int|
                    0 <= j < i && msgs@[j].mid == x.mid && synced_to_any(
                        msgs@[j],
                        bots@,
                        *cache,
                        now_millis,
                        max_age_seconds,
                    ) && !synced_mid(msgs@, j, x.mid, bots@, *cache, now_millis, max_age_seconds)
                        && event_for(x, msgs@[j], *cache, matrix_domain@);
                assert(0 <= j < i + 1);
            }
        }
        match event_for_bots(m, bots, cache, now_millis, max_age_seconds, matrix_domain) {
            None => {},
            Some(e) => {
                let ghost ev = e;
                let added = insert_by_mid(&mut r, e);
                proof {
                    if added {
                        assert(!synced_mid(msgs@, i as int, ev.mid, bots@, *cache, now_millis, max_age_seconds));
                        assert(first_event(ev, msgs@, i + 1, bots@, *cache, now_millis, max_age_seconds, matrix_domain@));
                    }
                }
            },
        }
        i += 1;
    }
    proof {
        assert forall|k: int| 0 <= k < r@.len() implies event_for(
            #[trigger] r@[k],
            msgs@[first_with_mid(msgs@, r@[k].mid, bots@, *cache, now_millis, max_age_seconds)],
            *cache,
            matrix_domain@,
        ) by {
            assert(r@.contains(r@[k]));
            let j = choose|j: int|
                0 <= j < msgs@.len() && msgs@[j].mid == r@[k].mid && synced_to_any(
                    msgs@[j],
                    bots@,
                    *cache,
                    now_millis,
                    max_age_seconds,
                ) && !synced_mid(msgs@, j, r@[k].mid, bots@, *cache, now_millis, max_age_seconds)
                    && event_for(r@[k], msgs@[j], *cache, matrix_domain@);
            assert forall|x: int| 0 <= x < j implies !(#[trigger] msgs@[x].mid == r@[k].mid && synced_to_any(
                msgs@[x],
                bots@,
                *cache,
                now_millis,
                max_age_seconds,
            )) by {
                if msgs@[x].mid == r@[k].mid && synced_to_any(msgs@[x], bots@, *cache, now_millis, max_age_seconds) {
                    assert(synced_mid(msgs@, j, r@[k].mid, bots@, *cache, now_millis, max_age_seconds));
                }
            }
            let f = first_with_mid(msgs@, r@[k].mid, bots@, *cache, now_millis, max_age_seconds);
            if f != j {
                if f < j {
                    assert(!(msgs@[f].mid == r@[k].mid && synced_to_any(msgs@[f], bots@, *cache, now_millis, max_age_seconds)));
                } else {
                    assert(!(msgs@[j].mid == r@[k].mid && synced_to_any(msgs@[j], bots@, *cache, now_millis, max_age_seconds)));
                }
            }
        }
    }
    r
}

// ----- waiting for messages -----

/// Milliseconds between two checks for new messages while a sync waits.
pub const CHECK_INTERVAL_MS: i64 = 3000;

/// When a sync started at `now` stops waiting: after the asked timeout, or
/// the default wait.
pub fn sync_deadline(now_millis: i64, timeout: Option<i64>) -> (d: i64)
    requires
        i64::MIN <= now_millis + (match timeout {
            Some(t) => t,
            None => MAX_WAIT_MS as i64,
        }) <= i64::MAX,
    ensures
        d == now_millis + (match timeout {
            Some(t) => t,
            None => MAX_WAIT_MS as i64,
        }),
{
    let t: i64 = match timeout {
        Some(t) => t,
        None => 3000,
    };
    now_millis + t
}

/// What a waiting sync does next.
#[derive(Debug, Clone, Copy, PartialEq, Eq)]
pub enum PollStep {
    /// The deadline has passed: answer with no new message.
    Expired,
    /// Nothing new is stored: wait this many milliseconds, then check again.
    Wait { ms: u64 },
    /// Something newer than what was synced is stored: fetch it.
    Fetch,
}

/// How long a waiting sync sleeps at `now`: the check interval, or the time
/// left before the deadline when that is less; nothing when none is left.
pub open spec fn wait_ms(now_millis: i64, deadline: i64) -> int {
    let left = deadline - now_millis;
    if left > 0 {
        if CHECK_INTERVAL_MS < left {
            CHECK_INTERVAL_MS as int
        } else {
            left
        }
    } else {
        0
    }
}

/// How long a waiting sync sleeps at `now` before checking again.
pub fn sleep_ms(now_millis: i64, deadline: i64) -> (ms: u64)
    ensures
        ms == wait_ms(now_millis, deadline),
{
    if deadline > now_millis {
        let left: i128 = deadline as i128 - now_millis as i128;
        if (CHECK_INTERVAL_MS as i128) < left {
            CHECK_INTERVAL_MS as u64
        } else {
            left as u64
        }
    } else {
        0
    }
}

/// The next step of a sync waiting at `now` for messages newer than
/// `cached_max_mid`, the newest stored one being `max_msg_id`.
pub fn poll_step(now_millis: i64, deadline: i64, max_msg_id: i64, cached_max_mid: i64) -> (s: PollStep)
    ensures
        s == (if now_millis >= deadline {
            PollStep::Expired
        } else if max_msg_id <= cached_max_mid {
            PollStep::Wait { ms: wait_ms(now_millis, deadline) as u64 }
        } else {
            PollStep::Fetch
        }),
{
    if now_millis >= deadline {
        PollStep::Expired
    } else if max_msg_id <= cached_max_mid {
        PollStep::Wait { ms: sleep_ms(now_millis, deadline) }
    } else {
        PollStep::Fetch
    }
}

/// The newest message id of the bots' own messages: the largest of the
/// newest ids found, 0 when none is larger.
pub open spec fn newest_of(first_mids: Seq<Option<i64>>) -> i64
    decreases first_mids.len(),
{
    if first_mids.len() == 0 {
        0
    } else {
        let m = newest_of(first_mids.drop_last());
        match first_mids.last() {
            Some(x) => if x > m {
                x
            } else {
                m
            },
            None => m,
        }
    }
}

/// The newest of the message ids found for the bots.
pub fn newest_mid(first_mids: &Vec<Option<i64>>) -> (m: i64)
    ensures
        m == newest_of(first_mids@),
{
    let mut m: i64 = 0;
    let mut i: usize = 0;
    while i < first_mids.len()
        invariant
            i <= first_mids.len(),
            m == newest_of(first_mids@.take(i as int)),
        decreases first_mids.len() - i,
    {
        assert(first_mids@.take(i + 1).drop_last() =~= first_mids@.take(i as int));
        if let Some(x) = first_mids[i] {
            if x > m {
                m = x;
            }
        }
        i += 1;
    }
    assert(first_mids@.take(first_mids.len() as int) =~= first_mids@);
    m
}

/// A copy of a list of texts.
fn copy_texts(v: &Vec<String>) -> (r: Vec<String>)
    ensures
        r@ == v@,
{
    let mut r: Vec<String> = Vec::new();
    let mut i: usize = 0;
    while i < v.len()
        invariant
            i <= v.len(),
            r@ == v@.take(i as int),
        decreases v.len() - i,
    {
        r.push(v[i].clone());
        assert(r@ =~= v@.take(i + 1));
        i += 1;
    }
    assert(v@.take(v.len() as int) =~= v@);
    r
}

impl BotCache {
    /// Fills the cache with the bots and their rooms, the newest message id
    /// and the time of filling; the newest id never goes back.
    pub fn fill(&mut self, rooms: crate::bot_rooms::BotRooms, max_mid: i64, now_millis: i64)
        ensures
            final(self).bot_uids@ == rooms.bot_uids@,
            forall|uid: i64|
                #[trigger] final(self).room_cache@.contains_key(uid) <==> exists|k: int|
                    0 <= k < rooms.rooms@.len() && rooms.rooms@[k].0 == uid,
            forall|k: int|
                0 <= k < rooms.rooms@.len() && (forall|j: int|
                    k < j < rooms.rooms@.len() ==> rooms.rooms@[j].0 != rooms.rooms@[k].0)
                    ==> final(self).room_cache@[(#[trigger] rooms.rooms@[k]).0]@ == rooms.rooms@[k].1@,
            final(self).max_mid == (if max_mid > old(self).max_mid {
                max_mid
            } else {
                old(self).max_mid
            }),
            final(self).last_refreshed == now_millis,
    {
        broadcast use vstd::std_specs::hash::group_hash_axioms;

        let ghost rv = rooms.rooms@;
        let mut cache: HashMap<i64, Vec<String>> = HashMap::new();
        let mut i: usize = 0;
        while i < rooms.rooms.len()
            invariant
                i <= rooms.rooms.len(),
                rv == rooms.rooms@,
                forall|uid: i64|
                    #[trigger] cache@.contains_key(uid) <==> exists|k: int| 0 <= k < i && rv[k].0 == uid,
                forall|k: int|
                    0 <= k < i && (forall|j: int| k < j < i ==> rv[j].0 != rv[k].0) ==> cache@[(
                    #[trigger] rv[k]).0]@ == rv[k].1@,
            decreases rooms.rooms.len() - i,
        {
            let uid = rooms.rooms[i].0;
            let list = copy_texts(&rooms.rooms[i].1);
            cache.insert(uid, list);
            assert forall|x: i64| #[trigger] cache@.contains_key(x) <==> exists|k: int|
                0 <= k < i + 1 && rv[k].0 == x by {
                if x == uid {
                    assert(rv[i as int].0 == x);
                }
            }
            i += 1;
        }
        self.bot_uids = rooms.bot_uids;
        self.room_cache = cache;
        if max_mid > self.max_mid {
            self.max_mid = max_mid;
        }
        self.last_refreshed = now_millis;
    }

    /// The rooms of the user `uid`, none when it is not a bot with rooms.
    pub fn rooms_of(&self, uid: i64) -> (r: Vec<String>)
        ensures
            r@ == (if self.room_cache@.contains_key(uid) {
                self.room_cache@[uid]@
            } else {
                Seq::<String>::empty()
            }),
    {
        broadcast use vstd::std_specs::hash::group_hash_axioms;

        match self.room_cache.get(&uid) {
            Some(v) => copy_texts(v),
            None => Vec::new(),
        }
    }

    /// Records that a sync answered up to the message `next_batch`: the
    /// newest synced id grows to it.
    pub fn note_synced(&mut self, next_batch: i64)
        ensures
            final(self).max_mid == (if next_batch > old(self).max_mid {
                next_batch
            } else {
                old(self).max_mid
            }),
            final(self).bot_uids == old(self).bot_uids,
            final(self).room_cache == old(self).room_cache,
            final(self).last_refreshed == old(self).last_refreshed,
    {
        if next_batch > self.max_mid {
            self.max_mid = next_batch;
        }
    }
}

// ----- the rooms of a response -----

/// The events of each room in a sync response: the rooms in the order they
/// first appear, each with the positions of its events in order.
pub open spec fn timelines_of(events: Seq<MessageEvent>, r: Seq<(String, Vec<usize>)>) -> bool {
    &&& forall|a: int, b: int| 0 <= a < b < r.len() ==> r[a].0@ != r[b].0@
    &&& forall|a: int| 0 <= a < r.len() ==> (#[trigger] r[a]).1@.len() > 0
    &&& forall|a: int, x: int, y: int|
        0 <= a < r.len() && 0 <= x < y < r[a].1@.len() ==> #[trigger] r[a].1@[x] < #[trigger] r[a].1@[y]
    &&& forall|a: int, x: int|
        0 <= a < r.len() && 0 <= x < r[a].1@.len() ==> (#[trigger] r[a].1@[x]) < events.len()
            && events[r[a].1@[x] as int].room_id@ == r[a].0@
    &&& forall|i: int| 0 <= i < events.len() ==> #[trigger] placed(r, i)
}

/// Whether the position `k` is among the positions of some room.
pub open spec fn placed(r: Seq<(String, Vec<usize>)>, k: int) -> bool {
    exists|a: int, x: int| 0 <= a < r.len() && 0 <= x < r[a].1@.len() && #[trigger] r[a].1@[x] == k
}

/// Groups the events of a sync response by room.
pub fn room_timelines(events: &Vec<MessageEvent>) -> (r: Vec<(String, Vec<usize>)>)
    ensures
        timelines_of(events@, r@),
{
    let mut r: Vec<(String, Vec<usize>)> = Vec::new();
    let mut i: usize = 0;
    while i < events.len()
        invariant
            i <= events.len(),
            forall|a: int, b: int| 0 <= a < b < r@.len() ==> r@[a].0@ != r@[b].0@,
            forall|a: int| 0 <= a < r@.len() ==> (#[trigger] r@[a]).1@.len() > 0,
            forall|a: int, x: int, y: int|
                0 <= a < r@.len() && 0 <= x < y < r@[a].1@.len() ==> #[trigger] r@[a].1@[x] < #[trigger] r@[a].1@[y],
            forall|a: int, x: int|
                0 <= a < r@.len() && 0 <= x < r@[a].1@.len() ==> (#[trigger] r@[a].1@[x]) < i
                    && events@[r@[a].1@[x] as int].room_id@ == r@[a].0@,
            forall|k: int| 0 <= k < i ==> #[trigger] placed(r@, k),
        decreases events.len() - i,
    {
        let room = &events[i].room_id;
        let mut a: usize = 0;
        while a < r.len() && !str_equal(r[a].0.as_str(), room.as_str())
            invariant
                a <= r.len(),
                forall|b: int| 0 <= b < a ==> r@[b].0@ != room@,
            decreases r.len() - a,
        {
            a += 1;
        }
        let ghost r0 = r@;
        if a < r.len() {
            let (name, mut list) = r.remove(a);
            list.push(i);
            r.insert(a, (name, list));
            assert forall|b: int| 0 <= b < r@.len() && b != a implies r@[b] == r0[b] by {}
            assert forall|k: int| 0 <= k < i + 1 implies #[trigger] placed(r@, k) by {
                if k == i {
                    assert(r@[a as int].1@[r@[a as int].1@.len() - 1] == k);
                } else {
                    assert(placed(r0, k));
                    let (b, x) = choose|b: int, x: int|
                        0 <= b < r0.len() && 0 <= x < r0[b].1@.len() && #[trigger] r0[b].1@[x] == k;
                    if b == a {
                        assert(r@[b].1@[x] == k);
                    } else {
                        assert(r@[b] == r0[b]);
                    }
                }
            }
        } else {
            let mut list: Vec<usize> = Vec::new();
            list.push(i);
            r.push((room.clone(), list));
            assert forall|b: int| 0 <= b < r0.len() implies r@[b] == r0[b] by {}
            assert forall|k: int| 0 <= k < i + 1 implies #[trigger] placed(r@, k) by {
                if k == i {
                    assert(r@[r0.len() as int].1@[0] == k);
                } else {
                    assert(placed(r0, k));
                    let (b, x) = choose|b: int, x: int|
                        0 <= b < r0.len() && 0 <= x < r0[b].1@.len() && #[trigger] r0[b].1@[x] == k;
                    assert(r@[b] == r0[b]);
                }
            }
        }
        i += 1;
    }
    r
}


// ----- the sync response -----

/// One event of a room timeline in a sync response. `relates_to` is the
/// event id of the file message this text captions (an `m.reference`).
#[derive(Debug, Clone)]
pub struct SyncTimelineEvent {
    pub event_id: String,
    pub sender: String,
    pub origin_server_ts: i64,
    pub content: RoomEventContent,
    pub relates_to: Option<String>,
}

/// A joined room of a sync response with its timeline, oldest event first.
#[derive(Debug, Clone)]
pub struct SyncRoom {
    pub room_id: String,
    pub events: Vec<SyncTimelineEvent>,
}

/// A sync response: the batch token (which each room's timeline also carries
/// as its `prev_batch`), the joined rooms, the users whose devices changed and
/// the number of one-time keys the device has left.
#[derive(Debug, Clone)]
pub struct SyncResponse {
    pub next_batch: String,
    pub rooms: Vec<SyncRoom>,
    pub changed_users: Vec<String>,
    pub one_time_key_count: i64,
}

/// The batch token of a message id: `s` and its decimal text.
pub open spec fn batch_token(n: i64) -> Seq<char> {
    seq!['s'] + int_text(n as int)
}

/// The event id of a message id: `$` and its decimal text.
pub open spec fn event_id_of(mid: i64) -> Seq<char> {
    seq!['$'] + int_text(mid as int)
}

/// The event id an optional message id refers to.
pub open spec fn opt_event_id(mid: Option<i64>) -> Option<Seq<char>> {
    match mid {
        Some(m) => Some(event_id_of(m)),
        None => None,
    }
}

/// `t` is the timeline event of the `i`-th message: its id, sender, time and
/// content, and the file message it captions among all the messages.
pub open spec fn timeline_event_for(t: SyncTimelineEvent, events: Seq<MessageEvent>, i: int) -> bool {
    &&& t.event_id@ == event_id_of(events[i].mid)
    &&& t.sender@ == events[i].sender@
    &&& t.origin_server_ts == events[i].timestamp
    &&& t.content@ == events[i].content@
    &&& opt_seq(t.relates_to) == opt_event_id(caption_links(caption_facts(events))[i])
}

/// The rooms of a response follow the grouping `g` of the messages: the same
/// rooms in the same order, each with the events of its positions.
pub open spec fn rooms_follow(
    events: Seq<MessageEvent>,
    g: Seq<(String, Vec<usize>)>,
    rooms: Seq<SyncRoom>,
) -> bool {
    &&& rooms.len() == g.len()
    &&& forall|a: int| 0 <= a < rooms.len() ==> (#[trigger] rooms[a]).room_id@ == g[a].0@
        && rooms[a].events@.len() == g[a].1@.len()
    &&& forall|a: int, x: int|
        0 <= a < rooms.len() && 0 <= x < rooms[a].events@.len() ==> timeline_event_for(
            #[trigger] rooms[a].events@[x],
            events,
            g[a].1@[x] as int,
        )
}

/// The rooms of a sync response for `events`: each room once, with the
/// timeline events of its messages in the order they came.
pub open spec fn sync_rooms(events: Seq<MessageEvent>, rooms: Seq<SyncRoom>) -> bool {
    exists|g: Seq<(String, Vec<usize>)>|
        #![trigger timelines_of(events, g)]
        timelines_of(events, g) && rooms_follow(events, g, rooms)
}

/// A copy of an optional string.
fn copy_opt(s: &Option<String>) -> (r: Option<String>)
    ensures
        opt_seq(r) == opt_seq(*s),
{
    match s {
        Some(t) => Some(t.clone()),
        None => None,
    }
}

/// A copy of a room event content.
fn copy_content(c: &RoomEventContent) -> (r: RoomEventContent)
    ensures
        r@ == c@,
{
    let mentions = match &c.mentions {
        Some(m) => Some(copy_texts(m)),
        None => None,
    };
    let r = RoomEventContent {
        msgtype: c.msgtype.clone(),
        body: c.body.clone(),
        format: copy_opt(&c.format),
        formatted_body: copy_opt(&c.formatted_body),
        mentions,
        url: copy_opt(&c.url),
        mimetype: copy_opt(&c.mimetype),
        size: c.size,
    };
    assert(r@ =~= c@);
    r
}

/// The text of a prefix character followed by a number.
fn tagged_number(tag: char, n: i64) -> (s: String)
    ensures
        s@ == seq![tag] + int_text(n as int),
{
    let mut v: Vec<char> = Vec::new();
    v.push(tag);
    let digits = format_i64(n);
    let v = concat(&v, &digits);
    assert(v@ =~= seq![tag] + int_text(n as int));
    string_of(&v)
}

/// The timeline event of the `i`-th message, given the file message it captions.
fn timeline_event(events: &Vec<MessageEvent>, i: usize, link: Option<i64>) -> (t: SyncTimelineEvent)
    requires
        i < events.len(),
        link == caption_links(caption_facts(events@))[i as int],
    ensures
        timeline_event_for(t, events@, i as int),
{
    let e = &events[i];
    let relates_to = match link {
        Some(m) => Some(tagged_number('$', m)),
        None => None,
    };
    SyncTimelineEvent {
        event_id: tagged_number('$', e.mid),
        sender: e.sender.clone(),
        origin_server_ts: e.timestamp,
        content: copy_content(&e.content),
        relates_to,
    }
}

/// Builds the sync response for the messages of a bot: each message becomes
/// an event `$<mid>` of its room, a text that follows a file of the same
/// sender in the same room within a minute refers to that file, and the batch
/// token is `s<next_batch>`.
pub fn build_sync_response(
    messages: &Vec<MessageEvent>,
    next_batch: i64,
    changed_users: Vec<String>,
    otk_count: i64,
) -> (r: SyncResponse)
    ensures
        r.next_batch@ == batch_token(next_batch),
        sync_rooms(messages@, r.rooms@),
        r.changed_users@ == changed_users@,
        r.one_time_key_count == otk_count,
{
    let links = link_captions(messages);
    let g = room_timelines(messages);
    let mut rooms: Vec<SyncRoom> = Vec::new();
    let mut a: usize = 0;
    while a < g.len()
        invariant
            a <= g.len(),
            links@ == caption_links(caption_facts(messages@)),
            timelines_of(messages@, g@),
            rooms@.len() == a,
            forall|b: int| 0 <= b < a ==> (#[trigger] rooms@[b]).room_id@ == g@[b].0@
                && rooms@[b].events@.len() == g@[b].1@.len(),
            forall|b: int, x: int|
                0 <= b < a && 0 <= x < rooms@[b].events@.len() ==> timeline_event_for(
                    #[trigger] rooms@[b].events@[x],
                    messages@,
                    g@[b].1@[x] as int,
                ),
        decreases g.len() - a,
    {
        let positions = &g[a].1;
        let mut evs: Vec<SyncTimelineEvent> = Vec::new();
        let mut x: usize = 0;
        while x < positions.len()
            invariant
                x <= positions.len(),
                a < g.len(),
                positions@ == g@[a as int].1@,
                links@ == caption_links(caption_facts(messages@)),
                timelines_of(messages@, g@),
                evs@.len() == x,
                forall|y: int| 0 <= y < x ==> timeline_event_for(
                    #[trigger] evs@[y],
                    messages@,
                    positions@[y] as int,
                ),
            decreases positions.len() - x,
        {
            let k = positions[x];
            assert(g@[a as int].1@[x as int] == k);
            assert(k < messages.len());
            assert(links@.len() == messages@.len());
            evs.push(timeline_event(messages, k, links[k]));
            x += 1;
        }
        let ghost before = rooms@;
        rooms.push(SyncRoom { room_id: g[a].0.clone(), events: evs });
        assert forall|b: int, x: int|
            0 <= b < a + 1 && 0 <= x < rooms@[b].events@.len() implies timeline_event_for(
            #[trigger] rooms@[b].events@[x],
            messages@,
            g@[b].1@[x] as int,
        ) by {
            if b < a {
                assert(rooms@[b] == before[b]);
            }
        }
        a += 1;
    }
    let r = SyncResponse {
        next_batch: tagged_number('s', next_batch),
        rooms,
        changed_users,
        one_time_key_count: otk_count,
    };
    assert(timelines_of(messages@, g@) && rooms_follow(messages@, g@, r.rooms@));
    r
}


/// In a sync response no file message refers to another message: only texts
/// carry a caption reference.
pub proof fn lemma_files_refer_to_nothing(events: Seq<MessageEvent>, rooms: Seq<SyncRoom>, a: int, x: int)
    requires
        sync_rooms(events, rooms),
        0 <= a < rooms.len(),
        0 <= x < rooms[a].events@.len(),
        rooms[a].events@[x].content.url is Some,
    ensures
        rooms[a].events@[x].relates_to is None,
{
    let g = choose|g: Seq<(String, Vec<usize>)>|
        #![trigger timelines_of(events, g)]
        timelines_of(events, g) && rooms_follow(events, g, rooms);
    let t = rooms[a].events@[x];
    let k = g[a].1@[x] as int;
    assert(timeline_event_for(t, events, k));
    assert(k < events.len());
    assert(caption_facts(events)[k].2);
}

} // verus!
