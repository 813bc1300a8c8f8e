//! System administration: the organization, frontend URL and common settings,
//! the change log, and the paging of the file list.

use crate::jsontree::JsonTree;
use crate::keyed::{extend_members, lookup_member, member_map, set_member, take_member};
use crate::num::{format_i64, int_text, parse_i64, parse_i64_spec};
use crate::text::{chars_string, is_prefix, push_chars, split_on, str_chars, str_equal, str_has_prefix};
use vstd::prelude::*;

verus! {

/// The system administration endpoints.
pub struct ApiAdminSystem;

/// The groups the API's endpoints are listed under.
#[derive(Debug, Clone, Copy, PartialEq, Eq)]
pub enum ApiTags {
    /// Token operations.
    Token,
    /// User operations.
    User,
    /// Group operations.
    Group,
    /// Message operations.
    Message,
    /// Resource operations.
    Resource,
    /// Favorite archive operations.
    Favorite,
    /// User management operations.
    AdminUser,
    /// System management operations.
    AdminSystem,
    /// Login management operations.
    AdminLogin,
    /// Bot operations.
    Bot,
}

/// Server metrics.
#[derive(Debug, Clone)]
pub struct Metrics {
    pub user_count: usize,
    pub group_count: usize,
    pub online_user_count: usize,
    pub version: String,
}

/// The frontend URL setting.
#[derive(Debug, Clone, Default)]
pub struct FrontendUrlConfig {
    pub url: Option<String>,
}

/// The organization setting.
#[derive(Debug, Clone)]
pub struct OrganizationConfig {
    pub name: String,
    pub description: Option<String>,
}

/// The common system settings.
#[derive(Debug, Clone)]
pub struct SystemCommonConfig {
    pub chat_layout_mode: String,
    pub contact_verification_enable: bool,
    pub ext_setting: Option<String>,
    pub max_file_expiry_mode: String,
    pub msg_smtp_notify_delay_seconds: i32,
    pub msg_smtp_notify_enable: bool,
    pub only_admin_can_create_group: bool,
    pub show_user_online_status: bool,
    pub webclient_auto_update: bool,
}

/// The description of an app release.
#[derive(Debug, Clone)]
pub struct AppVersionInfo {
    pub version_code: i16,
    pub version_name: String,
    pub build_time: String,
    pub description: String,
    pub file_url: String,
}

/// The name the frontend URL setting is stored under.
pub const FRONTEND_URL_CONFIG_NAME: &'static str = "frontend-url";

/// The name the organization setting is stored under.
pub const ORGANIZATION_CONFIG_NAME: &'static str = "organization";

impl crate::state::DynamicConfig for FrontendUrlConfig {
    type Instance = Self;

    fn name() -> (n: &'static str)
        ensures
            n@ == FRONTEND_URL_CONFIG_NAME@,
    {
        FRONTEND_URL_CONFIG_NAME
    }

    fn create_instance(self, _config: &crate::config::Config) -> (i: Self)
        ensures
            i == self,
    {
        self
    }
}

impl crate::state::DynamicConfig for OrganizationConfig {
    type Instance = Self;

    fn name() -> (n: &'static str)
        ensures
            n@ == ORGANIZATION_CONFIG_NAME@,
    {
        ORGANIZATION_CONFIG_NAME
    }

    fn create_instance(self, _config: &crate::config::Config) -> (i: Self)
        ensures
            i == self,
    {
        self
    }
}

impl Default for OrganizationConfig {
    /// The organization of a new server: `unknown`, without description.
    fn default() -> (c: Self)
        ensures
            c.name@ == "unknown"@,
            c.description is None,
    {
        Self::new_default()
    }
}

impl OrganizationConfig {
    /// The organization of a new server: `unknown`, without description.
    pub fn new_default() -> (c: Self)
        ensures
            c.name@ == "unknown"@,
            c.description is None,
    {
        OrganizationConfig { name: "unknown".to_owned(), description: None }
    }
}

/// The page size of the file list when none is asked for.
pub fn default_page_size() -> (n: u64)
    ensures
        n == 100,
{
    100
}

/// The greatest page size of the file list.
pub const MAX_PAGE_SIZE: u64 = 1000;

/// The bounds of a page in a list of `len` items: pages count from 1 (page 0
/// reads as 1), a page holds at most 1000 items; a page past the end is empty.
pub open spec fn page_bounds_of(page: u64, page_size: u64, len: nat) -> (int, int) {
    let p = if page < 1 {
        1
    } else {
        page
    };
    let size = if page_size < MAX_PAGE_SIZE {
        page_size
    } else {
        MAX_PAGE_SIZE
    };
    let start = (p - 1) * size;
    if start < len {
        (start, if start + size < len {
            start + size
        } else {
            len as int
        })
    } else {
        (0, 0)
    }
}

/// The bounds of a page of the file list.
pub fn page_bounds(page: u64, page_size: u64, len: usize) -> (r: (usize, usize))
    ensures
        (r.0 as int, r.1 as int) == page_bounds_of(page, page_size, len as nat),
        r.0 <= r.1 <= len,
{
    let p = if page < 1 {
        1
    } else {
        page
    };
    let size = if page_size < MAX_PAGE_SIZE {
        page_size
    } else {
        MAX_PAGE_SIZE
    };
    let x: u128 = (p - 1) as u128;
    let y: u128 = size as u128;
    assert(x * y <= 0xffff_ffff_ffff_ffff * 1000) by (nonlinear_arith)
        requires
            x <= 0xffff_ffff_ffff_ffff,
            y <= 1000,
    ;
    let start: u128 = x * y;
    if start < len as u128 {
        let end: u128 = if start + (size as u128) < len as u128 {
            start + (size as u128)
        } else {
            len as u128
        };
        (start as usize, end as usize)
    } else {
        (0, 0)
    }
}

/// The pattern a frontend URL must match.
pub const FRONTEND_URL_PATTERN: &'static str = "^https?://[\\w\\-\\.]+(:\\d+)?$";

/// What `regex::Regex::new(pattern)` then `is_match(text)` gives: whether the
/// text matches, `None` when the pattern does not compile.
pub uninterp spec fn regex_match(pattern: Seq<char>, text: Seq<char>) -> Option<bool>;

/// Matches a text against a pattern with the `regex` crate.
#[verifier::external_body]
fn regex_is_match(pattern: &str, text: &str) -> (r: Option<bool>)
    ensures
        r == regex_match(pattern@, text@),
{
    match regex::Regex::new(pattern) {
        Ok(re) => Some(re.is_match(text)),
        Err(_) => None,
    }
}

/// `s` without its trailing `/`s (`str::trim_end_matches('/')`).
pub open spec fn trim_end_slashes(s: Seq<char>) -> Seq<char>
    decreases s.len(),
{
    if s.len() > 0 && s.last() == '/' {
        trim_end_slashes(s.drop_last())
    } else {
        s
    }
}

/// A frontend URL that is not of the form `http(s)://host[:port]`.
#[derive(Debug, Clone, Copy, PartialEq, Eq)]
pub struct BadUrlFormat;

impl ApiAdminSystem {
    /// The frontend URL to store, given the URL without its trailing `/`s and
    /// whether it matched the frontend URL pattern.
    pub fn accept_frontend_url(trimmed: String, matched: Option<bool>) -> (r: Result<
        String,
        BadUrlFormat,
    >)
        ensures
            matched == Some(true) ==> r == Ok::<String, BadUrlFormat>(trimmed),
            matched != Some(true) ==> r == Err::<String, BadUrlFormat>(BadUrlFormat),
    {
        match matched {
            Some(true) => Ok(trimmed),
            _ => Err(BadUrlFormat),
        }
    }

    /// Validates a frontend URL: without its trailing `/`s it must match the
    /// frontend URL pattern.
    pub fn validate_frontend_url(url: &str) -> (r: Result<String, BadUrlFormat>)
        ensures
            match r {
                Ok(u) => u@ == trim_end_slashes(url@) && regex_match(
                    FRONTEND_URL_PATTERN@,
                    trim_end_slashes(url@),
                ) == Some(true),
                Err(_) => regex_match(FRONTEND_URL_PATTERN@, trim_end_slashes(url@)) != Some(true),
            },
    {
        let v = str_chars(url);
        let mut end = v.len();
        assert(v@.take(v.len() as int) =~= v@);
        while end > 0 && v[end - 1] == '/'
            invariant
                end <= v.len(),
                trim_end_slashes(url@) == trim_end_slashes(v@.take(end as int)),
                v@ == url@,
            decreases end,
        {
            assert(v@.take(end as int).drop_last() =~= v@.take(end - 1));
            end -= 1;
        }
        assert(v@.take(v.len() as int) =~= v@);
        assert(trim_end_slashes(v@.take(end as int)) == v@.take(end as int));
        let trimmed = chars_string(&v, 0, end);
        assert(v@.subrange(0, end as int) =~= v@.take(end as int));
        let matched = regex_is_match(FRONTEND_URL_PATTERN, trimmed.as_str());
        Self::accept_frontend_url(trimmed, matched)
    }

    /// Whether the server has been set up: some user exists.
    pub fn initialized(cache: &crate::state::Cache) -> (b: bool)
        ensures
            b == (cache.users@.dom().len() > 0),
    {
        broadcast use vstd::std_specs::btree::group_btree_axioms;

        !cache.users.is_empty()
    }
}

impl SystemCommonConfig {
    /// The common settings from the stored ones, each missing one at its
    /// default: layout `Left`, contact verification on, file expiry `Off`, no
    /// mail notification delay, notifications off, anyone may create groups,
    /// online status shown, web client auto-update on. The stored delay is
    /// truncated to 32 bits.
    pub fn from_stored(
        chat_layout_mode: Option<String>,
        contact_verification_enable: Option<bool>,
        ext_setting: Option<String>,
        max_file_expiry_mode: Option<String>,
        msg_smtp_notify_delay_seconds: Option<i64>,
        msg_smtp_notify_enable: Option<bool>,
        only_admin_can_create_group: Option<bool>,
        show_user_online_status: Option<bool>,
        webclient_auto_update: Option<bool>,
    ) -> (c: Self)
        ensures
            c.chat_layout_mode@ == (match chat_layout_mode {
                Some(m) => m@,
                None => "Left"@,
            }),
            c.contact_verification_enable == (match contact_verification_enable {
                Some(b) => b,
                None => true,
            }),
            c.ext_setting == ext_setting,
            c.max_file_expiry_mode@ == (match max_file_expiry_mode {
                Some(m) => m@,
                None => "Off"@,
            }),
            c.msg_smtp_notify_delay_seconds == (match msg_smtp_notify_delay_seconds {
                Some(d) => d as i32,
                None => 0,
            }),
            c.msg_smtp_notify_enable == (match msg_smtp_notify_enable {
                Some(b) => b,
                None => false,
            }),
            c.only_admin_can_create_group == (match only_admin_can_create_group {
                Some(b) => b,
                None => false,
            }),
            c.show_user_online_status == (match show_user_online_status {
                Some(b) => b,
                None => true,
            }),
            c.webclient_auto_update == (match webclient_auto_update {
                Some(b) => b,
                None => true,
            }),
    {
        SystemCommonConfig {
            chat_layout_mode: match chat_layout_mode {
                Some(m) => m,
                None => "Left".to_owned(),
            },
            contact_verification_enable: match contact_verification_enable {
                Some(b) => b,
                None => true,
            },
            ext_setting,
            max_file_expiry_mode: match max_file_expiry_mode {
                Some(m) => m,
                None => "Off".to_owned(),
            },
            msg_smtp_notify_delay_seconds: match msg_smtp_notify_delay_seconds {
                Some(d) => #[verifier::truncate] (d as i32),
                None => 0,
            },
            msg_smtp_notify_enable: match msg_smtp_notify_enable {
                Some(b) => b,
                None => false,
            },
            only_admin_can_create_group: match only_admin_can_create_group {
                Some(b) => b,
                None => false,
            },
            show_user_online_status: match show_user_online_status {
                Some(b) => b,
                None => true,
            },
            webclient_auto_update: match webclient_auto_update {
                Some(b) => b,
                None => true,
            },
        }
    }
}

// ----- the stored common settings -----

/// A partial update of the common settings: each field given replaces the
/// stored one.
#[derive(Debug, Clone)]
pub struct UpdateCommonConfigRequest {
    /// The layout mode, such as `Left` or `SelfRight`.
    pub chat_layout_mode: Option<String>,
    pub contact_verification_enable: Option<bool>,
    /// The extension settings as JSON text, such as `{"enable_msg_url_preview":true}`.
    pub ext_setting: Option<String>,
    pub max_file_expiry_mode: Option<String>,
    pub msg_smtp_notify_delay_seconds: Option<i32>,
    pub msg_smtp_notify_enable: Option<bool>,
    pub only_admin_can_create_group: Option<bool>,
    pub show_user_online_status: Option<bool>,
    pub webclient_auto_update: Option<bool>,
}

/// The extension settings of an update are not a JSON object.
#[derive(Debug, Clone, Copy, PartialEq, Eq)]
pub struct InvalidExtSetting;

/// The keys of the stored common settings.
pub open spec fn is_common_key(k: Seq<char>) -> bool {
    ||| k == "chat_layout_mode"@
    ||| k == "contact_verification_enable"@
    ||| k == "ext_setting"@
    ||| k == "max_file_expiry_mode"@
    ||| k == "msg_smtp_notify_delay_seconds"@
    ||| k == "msg_smtp_notify_enable"@
    ||| k == "only_admin_can_create_group"@
    ||| k == "show_user_online_status"@
    ||| k == "webclient_auto_update"@
}

/// A stored text setting after an update that may give it.
pub open spec fn text_after(stored: Option<JsonTree>, given: Option<String>) -> Option<JsonTree> {
    match given {
        Some(t) => Some(JsonTree::Str(t)),
        None => stored,
    }
}

/// A stored flag after an update that may give it.
pub open spec fn flag_after(stored: Option<JsonTree>, given: Option<bool>) -> Option<JsonTree> {
    match given {
        Some(b) => Some(JsonTree::Bool(b)),
        None => stored,
    }
}

/// Whether the value is the object of `members`, merged into the stored
/// extension settings `stored`: those are kept as they are when they are not
/// an object; otherwise (an empty object when there are none) each member of
/// `more` replaces what they had for its key.
pub open spec fn ext_merged(
    stored: Option<JsonTree>,
    more: Seq<(String, JsonTree)>,
    after: Option<JsonTree>,
) -> bool {
    match stored {
        None => after matches Some(JsonTree::Object(e)) && member_map(e@) == member_map(more),
        Some(JsonTree::Object(old_e)) => after matches Some(JsonTree::Object(e)) && member_map(e@)
            == member_map(old_e@).union_prefer_right(member_map(more)),
        Some(other) => after == Some(other),
    }
}

/// The keys of the common settings differ from each other.
proof fn lemma_common_keys_distinct()
    ensures
        "chat_layout_mode"@.len() == 16,
        "contact_verification_enable"@.len() == 27,
        "ext_setting"@.len() == 11,
        "max_file_expiry_mode"@.len() == 20,
        "msg_smtp_notify_delay_seconds"@.len() == 29,
        "msg_smtp_notify_enable"@.len() == 22,
        "only_admin_can_create_group"@.len() == 27,
        "show_user_online_status"@.len() == 23,
        "webclient_auto_update"@.len() == 21,
        "contact_verification_enable"@ != "only_admin_can_create_group"@,
{
    reveal_strlit("chat_layout_mode");
    reveal_strlit("contact_verification_enable");
    reveal_strlit("ext_setting");
    reveal_strlit("max_file_expiry_mode");
    reveal_strlit("msg_smtp_notify_delay_seconds");
    reveal_strlit("msg_smtp_notify_enable");
    reveal_strlit("only_admin_can_create_group");
    reveal_strlit("show_user_online_status");
    reveal_strlit("webclient_auto_update");
    assert("contact_verification_enable"@[0] != "only_admin_can_create_group"@[0]);
}

/// The settings with `value`, when there is one, under `key`.
pub open spec fn with_setting(
    m: Map<Seq<char>, JsonTree>,
    key: Seq<char>,
    value: Option<JsonTree>,
) -> Map<Seq<char>, JsonTree> {
    match value {
        Some(v) => m.insert(key, v),
        None => m,
    }
}

/// The settings with the given values of the fields of an update, the
/// extension settings aside.
pub open spec fn fields_applied(m: Map<Seq<char>, JsonTree>, v: Seq<Option<JsonTree>>) -> Map<
    Seq<char>,
    JsonTree,
> {
    with_setting(
        with_setting(
            with_setting(
                with_setting(
                    with_setting(
                        with_setting(
                            with_setting(
                                with_setting(m, "chat_layout_mode"@, v[0]),
                                "contact_verification_enable"@,
                                v[1],
                            ),
                            "max_file_expiry_mode"@,
                            v[2],
                        ),
                        "msg_smtp_notify_delay_seconds"@,
                        v[3],
                    ),
                    "msg_smtp_notify_enable"@,
                    v[4],
                ),
                "only_admin_can_create_group"@,
                v[5],
            ),
            "show_user_online_status"@,
            v[6],
        ),
        "webclient_auto_update"@,
        v[7],
    )
}

/// A setting after an optional new value.
pub open spec fn value_after(stored: Option<JsonTree>, given: Option<JsonTree>) -> Option<JsonTree> {
    match given {
        Some(x) => Some(x),
        None => stored,
    }
}

/// Each field key gets its given value or keeps its own; every other key is kept.
#[verifier::rlimit(40)]
proof fn lemma_fields_applied(m: Map<Seq<char>, JsonTree>, v: Seq<Option<JsonTree>>)
    requires
        v.len() == 8,
    ensures
        ({
            let a = fields_applied(m, v);
            &&& forall|k: Seq<char>|
                !is_common_key(k) || k == "ext_setting"@ ==> #[trigger] a.get(k) == m.get(k)
            &&& a.get("chat_layout_mode"@) == value_after(m.get("chat_layout_mode"@), v[0])
            &&& a.get("contact_verification_enable"@) == value_after(
                m.get("contact_verification_enable"@),
                v[1],
            )
            &&& a.get("max_file_expiry_mode"@) == value_after(m.get("max_file_expiry_mode"@), v[2])
            &&& a.get("msg_smtp_notify_delay_seconds"@) == value_after(
                m.get("msg_smtp_notify_delay_seconds"@),
                v[3],
            )
            &&& a.get("msg_smtp_notify_enable"@) == value_after(
                m.get("msg_smtp_notify_enable"@),
                v[4],
            )
            &&& a.get("only_admin_can_create_group"@) == value_after(
                m.get("only_admin_can_create_group"@),
                v[5],
            )
            &&& a.get("show_user_online_status"@) == value_after(
                m.get("show_user_online_status"@),
                v[6],
            )
            &&& a.get("webclient_auto_update"@) == value_after(
                m.get("webclient_auto_update"@),
                v[7],
            )
        }),
{
    lemma_common_keys_distinct();
}

/// Gives `key` the value `value`, when there is one.
fn set_optional(config: &mut Vec<(String, JsonTree)>, key: &str, value: Option<JsonTree>)
    ensures
        member_map(final(config)@) == with_setting(member_map(old(config)@), key@, value),
{
    if let Some(v) = value {
        set_member(config, key.to_owned(), v);
    }
}

/// A text setting an update may give.
fn text_value(given: Option<String>) -> (v: Option<JsonTree>)
    ensures
        v == (match given {
            Some(t) => Some(JsonTree::Str(t)),
            None => None::<JsonTree>,
        }),
{
    match given {
        Some(t) => Some(JsonTree::Str(t)),
        None => None,
    }
}

/// A flag an update may give.
fn flag_value(given: Option<bool>) -> (v: Option<JsonTree>)
    ensures
        v == (match given {
            Some(b) => Some(JsonTree::Bool(b)),
            None => None::<JsonTree>,
        }),
{
    match given {
        Some(b) => Some(JsonTree::Bool(b)),
        None => None,
    }
}

/// Merges the members of `more` into the stored extension settings, when
/// those are an object or missing.
fn merge_ext_setting(config: &mut Vec<(String, JsonTree)>, more: Vec<(String, JsonTree)>)
    ensures
        forall|k: Seq<char>|
            k != "ext_setting"@ ==> #[trigger] member_map(final(config)@).get(k) == member_map(
                old(config)@,
            ).get(k),
        ext_merged(
            member_map(old(config)@).get("ext_setting"@),
            more@,
            member_map(final(config)@).get("ext_setting"@),
        ),
{
    let ghost more_view = more@;
    let stored = take_member(config, "ext_setting");
    match stored {
        None => {
            let mut merged: Vec<(String, JsonTree)> = Vec::new();
            assert(member_map(merged@) =~= Map::<Seq<char>, JsonTree>::empty());
            extend_members(&mut merged, more);
            assert(member_map(merged@) =~= member_map(more_view));
            set_member(config, "ext_setting".to_owned(), JsonTree::Object(merged));
        },
        Some(JsonTree::Object(existing)) => {
            let mut merged = existing;
            extend_members(&mut merged, more);
            set_member(config, "ext_setting".to_owned(), JsonTree::Object(merged));
        },
        Some(other) => {
            set_member(config, "ext_setting".to_owned(), other);
        },
    }
}

/// Applies a partial update to the stored common settings, given as the
/// members of their JSON object. `ext_setting` is the JSON value the update's
/// extension-settings text parses to, when it parses. An update whose
/// extension settings are not a JSON object is refused and changes nothing;
/// otherwise each setting the update gives replaces the stored one, and the
/// extension settings are merged member by member into the stored ones.
pub fn update_common_config(
    config: &mut Vec<(String, JsonTree)>,
    req: UpdateCommonConfigRequest,
    ext_setting: Option<JsonTree>,
) -> (r: Result<(), InvalidExtSetting>)
    ensures
        req.ext_setting is Some && !(ext_setting matches Some(JsonTree::Object(_))) ==> r == Err::<
            (),
            InvalidExtSetting,
        >(InvalidExtSetting) && final(config)@ == old(config)@,
        !(req.ext_setting is Some && !(ext_setting matches Some(JsonTree::Object(_)))) ==> {
            let before = member_map(old(config)@);
            let after = member_map(final(config)@);
            &&& r is Ok
            &&& forall|k: Seq<char>| !is_common_key(k) ==> #[trigger] after.get(k) == before.get(k)
            &&& after.get("chat_layout_mode"@) == text_after(
                before.get("chat_layout_mode"@),
                req.chat_layout_mode,
            )
            &&& after.get("contact_verification_enable"@) == flag_after(
                before.get("contact_verification_enable"@),
                req.contact_verification_enable,
            )
            &&& after.get("max_file_expiry_mode"@) == text_after(
                before.get("max_file_expiry_mode"@),
                req.max_file_expiry_mode,
            )
            &&& match req.msg_smtp_notify_delay_seconds {
                Some(d) => after.get("msg_smtp_notify_delay_seconds"@) matches Some(
                    JsonTree::Number(t),
                ) && t@ == int_text(d as int),
                None => after.get("msg_smtp_notify_delay_seconds"@) == before.get(
                    "msg_smtp_notify_delay_seconds"@,
                ),
            }
            &&& after.get("msg_smtp_notify_enable"@) == flag_after(
                before.get("msg_smtp_notify_enable"@),
                req.msg_smtp_notify_enable,
            )
            &&& after.get("only_admin_can_create_group"@) == flag_after(
                before.get("only_admin_can_create_group"@),
                req.only_admin_can_create_group,
            )
            &&& after.get("show_user_online_status"@) == flag_after(
                before.get("show_user_online_status"@),
                req.show_user_online_status,
            )
            &&& after.get("webclient_auto_update"@) == flag_after(
                before.get("webclient_auto_update"@),
                req.webclient_auto_update,
            )
            &&& match (req.ext_setting, ext_setting) {
                (Some(_), Some(JsonTree::Object(more))) => ext_merged(
                    before.get("ext_setting"@),
                    more@,
                    after.get("ext_setting"@),
                ),
                _ => after.get("ext_setting"@) == before.get("ext_setting"@),
            }
        },
{
    let given_ext = req.ext_setting.is_some();
    if given_ext {
        match &ext_setting {
            Some(JsonTree::Object(_)) => {},
            _ => return Err(InvalidExtSetting),
        }
    }
    let ghost before = member_map(config@);
    let delay = match req.msg_smtp_notify_delay_seconds {
        Some(d) => {
            let digits = format_i64(d as i64);
            assert(digits@.subrange(0, digits@.len() as int) =~= digits@);
            Some(JsonTree::Number(chars_string(&digits, 0, digits.len())))
        },
        None => None,
    };
    let v0 = text_value(req.chat_layout_mode);
    let v1 = flag_value(req.contact_verification_enable);
    let v2 = text_value(req.max_file_expiry_mode);
    let v4 = flag_value(req.msg_smtp_notify_enable);
    let v5 = flag_value(req.only_admin_can_create_group);
    let v6 = flag_value(req.show_user_online_status);
    let v7 = flag_value(req.webclient_auto_update);
    let ghost values = seq![v0, v1, v2, delay, v4, v5, v6, v7];
    set_optional(config, "chat_layout_mode", v0);
    set_optional(config, "contact_verification_enable", v1);
    set_optional(config, "max_file_expiry_mode", v2);
    set_optional(config, "msg_smtp_notify_delay_seconds", delay);
    set_optional(config, "msg_smtp_notify_enable", v4);
    set_optional(config, "only_admin_can_create_group", v5);
    set_optional(config, "show_user_online_status", v6);
    set_optional(config, "webclient_auto_update", v7);
    let ghost fields = member_map(config@);
    proof {
        assert(fields == fields_applied(before, values));
        lemma_fields_applied(before, values);
        lemma_common_keys_distinct();
    }
    if given_ext {
        if let Some(JsonTree::Object(more)) = ext_setting {
            merge_ext_setting(config, more);
        }
    }
    Ok(())
}

/// The text of a setting, when it is a JSON string.
pub open spec fn setting_text(v: Option<JsonTree>) -> Option<Seq<char>> {
    match v {
        Some(JsonTree::Str(t)) => Some(t@),
        _ => None,
    }
}

/// The flag of a setting, when it is a JSON boolean.
pub open spec fn setting_flag(v: Option<JsonTree>) -> Option<bool> {
    match v {
        Some(JsonTree::Bool(b)) => Some(b),
        _ => None,
    }
}

/// The integer of a setting, when it is a JSON number that is an `i64`.
pub open spec fn setting_integer(v: Option<JsonTree>) -> Option<i64> {
    match v {
        Some(JsonTree::Number(t)) => parse_i64_spec(t@),
        _ => None,
    }
}

/// The text of the setting `key`, when it is a JSON string.
fn text_setting(config: &Vec<(String, JsonTree)>, key: &str) -> (r: Option<String>)
    ensures
        match r {
            Some(t) => setting_text(member_map(config@).get(key@)) == Some(t@),
            None => setting_text(member_map(config@).get(key@)) is None,
        },
{
    match lookup_member(config, key) {
        Some(JsonTree::Str(t)) => Some(t.clone()),
        _ => None,
    }
}

/// The flag of the setting `key`, when it is a JSON boolean.
fn flag_setting(config: &Vec<(String, JsonTree)>, key: &str) -> (r: Option<bool>)
    ensures
        r == setting_flag(member_map(config@).get(key@)),
{
    match lookup_member(config, key) {
        Some(JsonTree::Bool(b)) => Some(*b),
        _ => None,
    }
}

impl SystemCommonConfig {
    /// The common settings stored as the members of a JSON object; a setting
    /// that is missing or of another JSON type is at its default.
    /// `ext_setting` is the JSON text of the stored extension settings, if any.
    pub fn from_members(config: &Vec<(String, JsonTree)>, ext_setting: Option<String>) -> (c: Self)
        ensures
            ({
                let m = member_map(config@);
                &&& c.chat_layout_mode@ == (match setting_text(m.get("chat_layout_mode"@)) {
                    Some(t) => t,
                    None => "Left"@,
                })
                &&& c.contact_verification_enable == (match setting_flag(
                    m.get("contact_verification_enable"@),
                ) {
                    Some(b) => b,
                    None => true,
                })
                &&& c.ext_setting == ext_setting
                &&& c.max_file_expiry_mode@ == (match setting_text(m.get("max_file_expiry_mode"@)) {
                    Some(t) => t,
                    None => "Off"@,
                })
                &&& c.msg_smtp_notify_delay_seconds == (match setting_integer(
                    m.get("msg_smtp_notify_delay_seconds"@),
                ) {
                    Some(d) => d as i32,
                    None => 0,
                })
                &&& c.msg_smtp_notify_enable == (match setting_flag(
                    m.get("msg_smtp_notify_enable"@),
                ) {
                    Some(b) => b,
                    None => false,
                })
                &&& c.only_admin_can_create_group == (match setting_flag(
                    m.get("only_admin_can_create_group"@),
                ) {
                    Some(b) => b,
                    None => false,
                })
                &&& c.show_user_online_status == (match setting_flag(
                    m.get("show_user_online_status"@),
                ) {
                    Some(b) => b,
                    None => true,
                })
                &&& c.webclient_auto_update == (match setting_flag(
                    m.get("webclient_auto_update"@),
                ) {
                    Some(b) => b,
                    None => true,
                })
            }),
    {
        let delay = match lookup_member(config, "msg_smtp_notify_delay_seconds") {
            Some(JsonTree::Number(t)) => parse_i64(t.as_str()),
            _ => None,
        };
        SystemCommonConfig::from_stored(
            text_setting(config, "chat_layout_mode"),
            flag_setting(config, "contact_verification_enable"),
            ext_setting,
            text_setting(config, "max_file_expiry_mode"),
            delay,
            flag_setting(config, "msg_smtp_notify_enable"),
            flag_setting(config, "only_admin_can_create_group"),
            flag_setting(config, "show_user_online_status"),
            flag_setting(config, "webclient_auto_update"),
        )
    }
}

/// A notification delay an update writes is read back as the same delay:
/// the number text written for `d` parses to `d`, which fits 32 bits.
pub proof fn lemma_delay_read_back(after: Map<Seq<char>, JsonTree>, d: i32)
    requires
        after.get("msg_smtp_notify_delay_seconds"@) matches Some(JsonTree::Number(t)) && t@
            == int_text(d as int),
    ensures
        setting_integer(after.get("msg_smtp_notify_delay_seconds"@)) == Some(d as i64),
        (d as i64) as i32 == d,
{
    crate::num::lemma_i64_round_trip(d as i64);
}

// ----- the file list -----

/// A file message as the file list shows it. Times are milliseconds since
/// the epoch.
#[derive(Debug, Clone)]
pub struct AdminFile {
    pub mid: i64,
    pub from_uid: i64,
    /// The group of a group message, 0 otherwise.
    pub gid: i64,
    /// The extension of the file's name.
    pub ext: String,
    /// The file's content type.
    pub content_type: String,
    pub content: String,
    /// The content again for an image, empty otherwise.
    pub thumbnail: String,
    /// The message's properties as JSON text.
    pub properties: String,
    pub created_at: i64,
    /// Whether the message is past its burn-after-reading time.
    pub expired: bool,
}

/// A stored message as the file list reads it.
#[derive(Debug, Clone)]
pub struct FileMessage {
    pub mid: i64,
    pub from_uid: i64,
    /// The group of a group message.
    pub gid: Option<i64>,
    pub content_type: String,
    pub content: String,
    /// The `content_type` property, when it is a string.
    pub file_content_type: Option<String>,
    /// The `name` property, when it is a string.
    pub file_name: Option<String>,
    /// The properties as JSON text, empty when there are none.
    pub properties: String,
    /// The burn-after-reading time in seconds, if any.
    pub expires_in: Option<i64>,
    pub created_at: i64,
}

/// The mathematical value of a file list entry.
#[verifier::ext_equal]
pub struct AdminFileView {
    pub mid: i64,
    pub from_uid: i64,
    pub gid: i64,
    pub ext: Seq<char>,
    pub content_type: Seq<char>,
    pub content: Seq<char>,
    pub thumbnail: Seq<char>,
    pub properties: Seq<char>,
    pub created_at: i64,
    pub expired: bool,
}

impl AdminFile {
    /// The mathematical value of the entry.
    pub open spec fn view(&self) -> AdminFileView {
        AdminFileView {
            mid: self.mid,
            from_uid: self.from_uid,
            gid: self.gid,
            ext: self.ext@,
            content_type: self.content_type@,
            content: self.content@,
            thumbnail: self.thumbnail@,
            properties: self.properties@,
            created_at: self.created_at,
            expired: self.expired,
        }
    }
}

/// The extension `std::path::Path::extension` finds in a file name, as text.
pub uninterp spec fn path_extension(name: Seq<char>) -> Option<Seq<char>>;

/// The extension of a file name with `Path::new(name).extension()`, when it
/// is valid text (which it is, the name being text).
#[verifier::external_body]
fn file_extension(name: &str) -> (r: Option<String>)
    ensures
        match r {
            Some(e) => path_extension(name@) == Some(e@),
            None => path_extension(name@) is None,
        },
{
    std::path::Path::new(name).extension().and_then(|e| e.to_str()).map(|e| e.to_string())
}

/// Integer division rounding toward zero, as Rust's `/` does, for a positive
/// divisor.
pub open spec fn div_toward_zero(a: int, b: int) -> int {
    if a >= 0 {
        a / b
    } else {
        -((-a) / b)
    }
}

/// Whether a message with a burn-after-reading time is past it at `now`:
/// more whole seconds have passed since it was sent.
pub open spec fn file_expired(expires_in: Option<i64>, created_at: i64, now_ms: i64) -> bool {
    match expires_in {
        Some(e) => div_toward_zero(now_ms - created_at, 1000) > e,
        None => false,
    }
}

/// The file list entry of a message, when it is a file message.
pub open spec fn file_entry(m: FileMessage, now_ms: i64) -> Option<AdminFileView> {
    if m.content_type@ != "vachat/file"@ {
        None
    } else {
        let ct = match m.file_content_type {
            Some(t) => t@,
            None => "application/octet-stream"@,
        };
        let name = match m.file_name {
            Some(n) => n@,
            None => Seq::empty(),
        };
        Some(
            AdminFileView {
                mid: m.mid,
                from_uid: m.from_uid,
                gid: match m.gid {
                    Some(g) => g,
                    None => 0,
                },
                ext: match path_extension(name) {
                    Some(e) => e,
                    None => Seq::empty(),
                },
                content_type: ct,
                content: m.content@,
                thumbnail: if is_prefix("image/"@, ct) {
                    m.content@
                } else {
                    Seq::empty()
                },
                properties: m.properties@,
                created_at: m.created_at,
                expired: file_expired(m.expires_in, m.created_at, now_ms),
            },
        )
    }
}

/// The entries of the file messages among `ms`, in their order.
pub open spec fn file_entries(ms: Seq<FileMessage>, now_ms: i64) -> Seq<AdminFileView>
    decreases ms.len(),
{
    if ms.len() == 0 {
        Seq::empty()
    } else {
        let rest = file_entries(ms.drop_last(), now_ms);
        match file_entry(ms.last(), now_ms) {
            Some(f) => rest.push(f),
            None => rest,
        }
    }
}

/// The time between a message and `now` fits 64 bits.
pub open spec fn age_fits(created_at: i64, now_ms: i64) -> bool {
    i64::MIN <= now_ms - created_at <= i64::MAX
}

/// The file list entry of a message: `None` unless its content type is
/// `vachat/file`; the file's content type defaults to
/// `application/octet-stream` and its name to nothing; an image gets its
/// content as thumbnail.
pub fn admin_file(m: &FileMessage, now_ms: i64) -> (r: Option<AdminFile>)
    requires
        age_fits(m.created_at, now_ms),
    ensures
        match r {
            Some(f) => file_entry(*m, now_ms) == Some(f.view()),
            None => file_entry(*m, now_ms) is None,
        },
{
    if !str_equal(m.content_type.as_str(), "vachat/file") {
        return None;
    }
    let content_type: String = match &m.file_content_type {
        Some(t) => t.clone(),
        None => "application/octet-stream".to_owned(),
    };
    let name: String = match &m.file_name {
        Some(n) => n.clone(),
        None => String::new(),
    };
    let ext = match file_extension(name.as_str()) {
        Some(e) => e,
        None => String::new(),
    };
    let thumbnail = if str_has_prefix(content_type.as_str(), "image/") {
        m.content.clone()
    } else {
        String::new()
    };
    let expired = match m.expires_in {
        Some(e) => (now_ms - m.created_at) / 1000 > e,
        None => false,
    };
    let f = AdminFile {
        mid: m.mid,
        from_uid: m.from_uid,
        gid: match m.gid {
            Some(g) => g,
            None => 0,
        },
        ext,
        content_type,
        content: m.content.clone(),
        thumbnail,
        properties: m.properties.clone(),
        created_at: m.created_at,
        expired,
    };
    assert(f.view() =~= file_entry(*m, now_ms)->0);
    Some(f)
}

/// The file list: the entries of the file messages among `messages`, in
/// their order.
pub fn admin_files(messages: &Vec<FileMessage>, now_ms: i64) -> (r: Vec<AdminFile>)
    requires
        forall|i: int| 0 <= i < messages@.len() ==> age_fits(#[trigger] messages@[i].created_at, now_ms),
    ensures
        r@.map_values(|f: AdminFile| f.view()) == file_entries(messages@, now_ms),
{
    let mut out: Vec<AdminFile> = Vec::new();
    let mut i: usize = 0;
    assert(messages@.take(0) =~= Seq::<FileMessage>::empty());
    assert(out@.map_values(|f: AdminFile| f.view()) =~= Seq::<AdminFileView>::empty());
    while i < messages.len()
        invariant
            i <= messages.len(),
            forall|k: int| 0 <= k < messages@.len() ==> age_fits(#[trigger] messages@[k].created_at, now_ms),
            out@.map_values(|f: AdminFile| f.view()) == file_entries(messages@.take(i as int), now_ms),
        decreases messages.len() - i,
    {
        let ghost before = out@;
        assert(messages@.take(i + 1).drop_last() =~= messages@.take(i as int));
        assert(messages@.take(i + 1).last() == messages@[i as int]);
        if let Some(f) = admin_file(&messages[i], now_ms) {
            out.push(f);
            assert(out@.map_values(|f: AdminFile| f.view()) =~= before.map_values(
                |f: AdminFile| f.view(),
            ).push(f.view()));
        }
        i += 1;
    }
    assert(messages@.take(messages.len() as int) =~= messages@);
    out
}

impl AdminFile {
    /// A copy of the entry.
    pub fn duplicate(&self) -> (r: AdminFile)
        ensures
            r.view() == self.view(),
    {
        AdminFile {
            mid: self.mid,
            from_uid: self.from_uid,
            gid: self.gid,
            ext: self.ext.clone(),
            content_type: self.content_type.clone(),
            content: self.content.clone(),
            thumbnail: self.thumbnail.clone(),
            properties: self.properties.clone(),
            created_at: self.created_at,
            expired: self.expired,
        }
    }
}

/// The page `page` of `page_size` entries of the file list (see `page_bounds`).
pub fn file_page(files: &Vec<AdminFile>, page: u64, page_size: u64) -> (r: Vec<AdminFile>)
    ensures
        ({
            let (start, end) = page_bounds_of(page, page_size, files@.len());
            r@.map_values(|f: AdminFile| f.view()) == files@.map_values(|f: AdminFile| f.view()).subrange(start, end)
        }),
{
    let (start, end) = page_bounds(page, page_size, files.len());
    let ghost all = files@.map_values(|f: AdminFile| f.view());
    let mut out: Vec<AdminFile> = Vec::new();
    let mut i = start;
    assert(out@.map_values(|f: AdminFile| f.view()) =~= all.subrange(start as int, start as int));
    while i < end
        invariant
            start <= i <= end <= files.len(),
            all == files@.map_values(|f: AdminFile| f.view()),
            out@.map_values(|f: AdminFile| f.view()) == all.subrange(start as int, i as int),
        decreases end - i,
    {
        let ghost before = out@;
        let f = files[i].duplicate();
        assert(f.view() == all[i as int]);
        out.push(f);
        assert(out@.map_values(|f: AdminFile| f.view()) =~= before.map_values(|f: AdminFile| f.view()).push(all[i as int]));
        assert(all.subrange(start as int, i + 1) =~= all.subrange(start as int, i as int).push(all[i as int]));
        i += 1;
    }
    out
}

// ----- app updates -----

impl AppVersionInfo {
    /// A copy of the release description.
    pub fn duplicate(&self) -> (r: AppVersionInfo)
        ensures
            r == *self,
    {
        AppVersionInfo {
            version_code: self.version_code,
            version_name: self.version_name.clone(),
            build_time: self.build_time.clone(),
            description: self.description.clone(),
            file_url: self.file_url.clone(),
        }
    }
}

impl ApiAdminSystem {
    /// The latest release for a platform, given the releases by platform
    /// name: the one under the platform's name in lower case; none when no
    /// platform is named.
    pub fn version_for(versions: &Vec<(String, AppVersionInfo)>, platform: Option<&str>) -> (r: Option<
        AppVersionInfo,
    >)
        ensures
            match platform {
                None => r is None,
                Some(p) => r == member_map(versions@).get(crate::token::lowercase_text(p@)),
            },
    {
        match platform {
            None => None,
            Some(p) => {
                let key = crate::token::to_lowercase(p);
                match lookup_member(versions, key.as_str()) {
                    Some(v) => Some(v.duplicate()),
                    None => None,
                }
            },
        }
    }
}

// ----- the change log -----

/// The lines of a text (`str::lines`): split at each `\n`, a `\r` before the
/// `\n` removed, no line after a final `\n`.
pub open spec fn text_lines(s: Seq<char>) -> Seq<Seq<char>> {
    let pieces = split_on(s, '\n');
    let ended = s.len() == 0 || s.last() == '\n';
    let whole = if ended {
        pieces.drop_last()
    } else {
        pieces
    };
    Seq::new(
        whole.len(),
        |i: int|
            if (i < whole.len() - 1 || ended) && whole[i].len() > 0 && whole[i].last() == '\r' {
                whole[i].drop_last()
            } else {
                whole[i]
            },
    )
}

/// Texts joined with `\n`.
pub open spec fn join_lines(lines: Seq<Seq<char>>) -> Seq<char>
    decreases lines.len(),
{
    if lines.len() == 0 {
        Seq::empty()
    } else if lines.len() == 1 {
        lines[0]
    } else {
        join_lines(lines.drop_last()) + seq!['\n'] + lines.last()
    }
}

/// The lines of the change log that are shown.
pub const CHANGE_LOG_LINES: usize = 500;

/// The first `max` lines of a text, joined with `\n`.
pub fn first_lines(content: &str, max: usize) -> (r: String)
    ensures
        r@ == join_lines(text_lines(content@).take(
            if max < text_lines(content@).len() {
                max as int
            } else {
                text_lines(content@).len() as int
            },
        )),
{
    let v = str_chars(content);
    let pieces = crate::text::split_chars(&v, '\n');
    let ghost pv = pieces@.map_values(|p: Vec<char>| p@);
    let ended = v.len() == 0 || v[v.len() - 1] == '\n';
    let count = if ended {
        pieces.len() - 1
    } else {
        pieces.len()
    };
    let ghost whole = if ended {
        pv.drop_last()
    } else {
        pv
    };
    let ghost lines = text_lines(content@);
    assert(lines.len() == count);
    let n = if max < count {
        max
    } else {
        count
    };
    let mut out = String::new();
    let mut i: usize = 0;
    while i < n
        invariant
            i <= n <= count <= pieces.len(),
            pv == pieces@.map_values(|p: Vec<char>| p@),
            pv == split_on(v@, '\n'),
            v@ == content@,
            whole == (if ended {
                pv.drop_last()
            } else {
                pv
            }),
            ended == (v@.len() == 0 || v@.last() == '\n'),
            count == whole.len(),
            lines == text_lines(content@),
            out@ == join_lines(lines.take(i as int)),
        decreases n - i,
    {
        let p = &pieces[i];
        let strip = (i + 1 < count || ended) && p.len() > 0 && p[p.len() - 1] == '\r';
        let len = if strip {
            p.len() - 1
        } else {
            p.len()
        };
        assert(whole[i as int] == p@);
        let ghost line = lines[i as int];
        assert(line == p@.take(len as int));
        if i > 0 {
            crate::text::push_char(&mut out, '\n');
        }
        push_chars(&mut out, p, 0, len);
        proof {
            assert(lines.take(i + 1).drop_last() =~= lines.take(i as int));
            assert(p@.subrange(0, len as int) =~= line);
            if i == 0 {
                assert(lines.take(1) =~= seq![line]);
            }
        }
        i += 1;
    }
    assert(lines.take(n as int) == lines.take(
        if max < lines.len() {
            max as int
        } else {
            lines.len() as int
        },
    ));
    out
}

} // verus!
