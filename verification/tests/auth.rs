use std::collections::{BTreeMap, HashMap, HashSet};

use vachat::auth::{
    decode_path_segment, get_client_identifier, get_matrix_domain, get_token_from_request,
    login_decision, parse_and_validate_matrix_user_id, percent_decode, rate_limit_details,
    validate_token_core, AuthFailureCache, DeviceAction, InvalidPathEncoding, LoginIdentifier,
    LoginRequest, MatrixIdError, MatrixLoginError, TokenError,
};
use vachat::password::hash_password;
use vachat::state::{BotKey, Cache, CacheUser, UserStatus};
use vachat::token::{default_device, ApiToken, LoginRefusal};
use vachat::state::CacheDevice;
use vachat::token::{token_pair_user, CurrentUser, TokenKind};

const SERVER_KEY: &str = "server-key";

fn user(name: &str) -> CacheUser {
    CacheUser {
        email: Some(format!("{}@zimu.pub", name)),
        name: name.to_string(),
        password: None,
        gender: 0,
        is_admin: false,
        language: "en-US".to_string(),
        create_by: "password".to_string(),
        devices: Vec::new(),
        mute_user: HashMap::new(),
        mute_group: HashMap::new(),
        burn_after_reading_user: HashMap::new(),
        burn_after_reading_group: HashMap::new(),
        read_index_user: HashMap::new(),
        read_index_group: HashMap::new(),
        pinned_chat_user: HashSet::new(),
        pinned_chat_group: HashSet::new(),
        contacts: HashMap::new(),
        created_at: 0,
        updated_at: 0,
        avatar_updated_at: 0,
        status: UserStatus::Normal,
        is_guest: false,
        webhook_url: None,
        is_bot: false,
        bot_keys: HashMap::new(),
        bot_online: false,
    }
}

fn bot_with_password(name: &str, password: &str) -> CacheUser {
    let mut u = user(name);
    u.is_bot = true;
    u.password = Some(hash_password(password, SERVER_KEY));
    u
}

fn key(name: &str, key: &str) -> BotKey {
    BotKey { name: name.to_string(), key: key.to_string(), created_at: 0, last_used: None }
}

fn cache_with(users: Vec<(i64, CacheUser)>) -> Cache {
    let mut m = BTreeMap::new();
    for (uid, u) in users {
        m.insert(uid, u);
    }
    Cache { groups: BTreeMap::new(), users: m }
}

fn login(user_id: &str, password: &str, device: Option<&str>) -> LoginRequest {
    LoginRequest {
        login_type: "m.login.password".to_string(),
        identifier: Some(LoginIdentifier { id_type: "m.id.user".to_string(), user: user_id.to_string() }),
        user: None,
        password: password.to_string(),
        device_id: device.map(|d| d.to_string()),
    }
}

// ----- path segments -----

#[test]
fn percent_decode_decodes_escapes_and_keeps_the_rest() {
    assert_eq!(percent_decode(b"a%20b"), b"a b".to_vec());
    assert_eq!(percent_decode(b"%41%6a"), b"Aj".to_vec());
    assert_eq!(percent_decode(b"100%"), b"100%".to_vec());
    assert_eq!(percent_decode(b"%zz%4"), b"%zz%4".to_vec());
}

#[test]
fn decode_path_segment_reads_utf8() {
    assert_eq!(decode_path_segment("%21abc%3Adef").unwrap(), "!abc:def");
    assert_eq!(decode_path_segment("%E4%BD%A0").unwrap(), "你");
    assert_eq!(decode_path_segment("%FF"), Err(InvalidPathEncoding));
}

// ----- identifiers -----

#[test]
fn matrix_user_id_is_split_at_the_first_colon() {
    assert_eq!(parse_and_validate_matrix_user_id("@alice:example.com", "example.com").unwrap(), "alice");
    assert_eq!(parse_and_validate_matrix_user_id("alice:example.com", "example.com").unwrap(), "alice");
    assert_eq!(parse_and_validate_matrix_user_id("@a:b:c", "b:c").unwrap(), "a");
}

#[test]
fn matrix_user_id_errors() {
    assert_eq!(parse_and_validate_matrix_user_id("@alice", "example.com"), Err(MatrixIdError::InvalidFormat));
    assert_eq!(
        parse_and_validate_matrix_user_id("@alice:other.org", "example.com"),
        Err(MatrixIdError::DomainMismatch { domain: "other.org".to_string(), expected: "example.com".to_string() })
    );
    assert_eq!(parse_and_validate_matrix_user_id("@:example.com", "example.com"), Err(MatrixIdError::EmptyUsername));
}

#[test]
fn client_identifier_prefers_forwarded_for() {
    assert_eq!(get_client_identifier(Some(" 1.2.3.4 , 5.6.7.8"), Some("9.9.9.9"), Some("tok")), "ip:1.2.3.4");
    assert_eq!(get_client_identifier(None, Some("9.9.9.9"), Some("tok")), "ip:9.9.9.9");
    assert_eq!(get_client_identifier(None, None, Some("0123456789abcdefXYZ")), "token:0123456789abcdef");
    assert_eq!(get_client_identifier(None, None, Some("short")), "token:short");
    assert_eq!(get_client_identifier(None, None, None), "unknown");
}

#[test]
fn bearer_token_is_taken_from_the_header() {
    assert_eq!(get_token_from_request(Some("Bearer abc.def")), Some("abc.def".to_string()));
    assert_eq!(get_token_from_request(Some("Basic abc")), None);
    assert_eq!(get_token_from_request(Some("bearer abc")), None);
    assert_eq!(get_token_from_request(None), None);
}

#[test]
fn matrix_domain_falls_back_to_the_first_domain() {
    assert_eq!(get_matrix_domain(&Some("m.example".to_string()), &vec!["a.com".to_string()]), "m.example");
    assert_eq!(get_matrix_domain(&None, &vec!["a.com".to_string(), "b.com".to_string()]), "a.com");
    assert_eq!(get_matrix_domain(&None, &Vec::new()), "localhost");
}

#[test]
fn rate_limit_details_message() {
    let d = rate_limit_details(30);
    assert_eq!(d.message, "Too many failed attempts. Retry after 30 seconds");
    assert_eq!(d.retry_after_ms, 30000);
    assert_eq!(rate_limit_details(0).message, "Too many failed attempts. Retry after 0 seconds");
}

// ----- failure counting -----

#[test]
fn five_failures_block_the_client() {
    let mut c = AuthFailureCache::new();
    for i in 0..4u64 {
        c.record_failure("ip:1", i * 1000);
        assert!(!c.is_blocked("ip:1", i * 1000));
    }
    c.record_failure("ip:1", 4000);
    assert!(c.is_blocked("ip:1", 4000));
    let e = c.failure_entry("ip:1").unwrap();
    assert_eq!(e.count, 5);
    assert_eq!(e.first_failure, 0);
    assert_eq!(e.blocked_until, Some(124_000));
    assert_eq!(c.remaining_block_time("ip:1", 5000), 119);
    assert!(!c.is_blocked("ip:1", 124_000));
    assert_eq!(c.remaining_block_time("ip:1", 124_000), 0);
    assert!(!c.is_blocked("ip:2", 4000));
}

#[test]
fn failures_outside_the_window_start_a_new_count() {
    let mut c = AuthFailureCache::new();
    c.record_failure("k", 0);
    c.record_failure("k", 1000);
    c.record_failure("k", 61_001);
    let e = c.failure_entry("k").unwrap();
    assert_eq!(e.count, 1);
    assert_eq!(e.first_failure, 61_001);
    assert_eq!(e.blocked_until, None);
}

#[test]
fn cleared_client_is_not_blocked() {
    let mut c = AuthFailureCache::new();
    for i in 0..5u64 {
        c.record_failure("k", i);
    }
    assert!(c.is_blocked("k", 10));
    c.clear_failures("k");
    assert!(!c.is_blocked("k", 10));
    assert_eq!(c.failure_entry("k"), None);
    assert_eq!(c.remaining_block_time("k", 10), 0);
}

#[test]
fn four_failures_after_clearing_leave_the_client_unblocked() {
    let mut c = AuthFailureCache::new();
    for i in 0..6u64 {
        c.record_failure("k", i * 100);
        c.record_failure("other", i * 100);
    }
    assert!(c.is_blocked("k", 600));
    c.clear_failures("k");
    for i in 0..4u64 {
        c.record_failure("k", 1000 + i * 10_000);
        assert!(!c.is_blocked("k", 1000 + i * 10_000));
        assert_eq!(c.remaining_block_time("k", 1000 + i * 10_000), 0);
    }
    assert_eq!(c.failure_entry("k").unwrap().count, 4);
    assert!(c.is_blocked("other", 600));
    c.record_failure("k", 31_000);
    assert!(c.is_blocked("k", 31_000));
    assert_eq!(c.remaining_block_time("k", 31_000), 120);
}

#[test]
fn blocked_time_never_exceeds_two_minutes() {
    let mut c = AuthFailureCache::new();
    for i in 0..7u64 {
        c.record_failure("k", 5000 + i * 1000);
        let now = 5000 + i * 1000;
        assert_eq!(c.is_blocked("k", now), i >= 4);
        assert!(c.remaining_block_time("k", now) <= 120);
    }
}

// ----- Matrix login -----

#[test]
fn matrix_login_of_a_bot_creates_its_device() {
    let cache = cache_with(vec![(1, user("alice")), (7, bot_with_password("helper", "secret"))]);
    let mut failures = AuthFailureCache::new();
    let plan = login_decision(&login("@helper:example.com", "secret", None), "example.com", &cache, SERVER_KEY, &mut failures, "ip:1", 0)
        .unwrap();
    assert_eq!(plan.uid, 7);
    assert_eq!(plan.user_id, "@helper:example.com");
    assert_eq!(plan.device_id, "matrix_device");
    assert_eq!(plan.action, DeviceAction::CreateDevice);
}

#[test]
fn matrix_login_with_a_known_device_updates_its_key() {
    let mut b = bot_with_password("Helper", "secret");
    b.bot_keys.insert(3, key("phone", "k1"));
    let cache = cache_with(vec![(7, b)]);
    let mut failures = AuthFailureCache::new();
    failures.record_failure("ip:1", 0);
    let req = LoginRequest { user: Some("helper:example.com".to_string()), identifier: None, ..login("", "secret", Some("phone")) };
    let plan = login_decision(&req, "example.com", &cache, SERVER_KEY, &mut failures, "ip:1", 10).unwrap();
    assert_eq!(plan.device_id, "phone");
    assert_eq!(plan.action, DeviceAction::UpdateKey);
    assert_eq!(failures.failure_entry("ip:1"), None);
}

#[test]
fn matrix_login_refusals() {
    let cache = cache_with(vec![(1, user("alice")), (7, bot_with_password("helper", "secret"))]);
    let mut failures = AuthFailureCache::new();
    let mut req = login("@helper:example.com", "secret", None);
    req.login_type = "m.login.token".to_string();
    assert_eq!(login_decision(&req, "example.com", &cache, SERVER_KEY, &mut failures, "c", 0).unwrap_err(), MatrixLoginError::InvalidLoginType);

    let mut req = login("@helper:example.com", "secret", None);
    req.identifier = Some(LoginIdentifier { id_type: "m.id.phone".to_string(), user: "x".to_string() });
    assert_eq!(login_decision(&req, "example.com", &cache, SERVER_KEY, &mut failures, "c", 0).unwrap_err(), MatrixLoginError::InvalidIdentifierType);

    let mut req = login("@helper:example.com", "secret", None);
    req.identifier = None;
    assert_eq!(login_decision(&req, "example.com", &cache, SERVER_KEY, &mut failures, "c", 0).unwrap_err(), MatrixLoginError::MissingUserIdentifier);

    let req = login("@helper:other.org", "secret", None);
    assert!(matches!(
        login_decision(&req, "example.com", &cache, SERVER_KEY, &mut failures, "c", 0).unwrap_err(),
        MatrixLoginError::InvalidUserId(MatrixIdError::DomainMismatch { .. })
    ));
    assert_eq!(failures.failure_entry("c"), None);

    // A user that is not a bot, and a wrong password, both count as failures.
    let req = login("@alice:example.com", "secret", None);
    assert_eq!(login_decision(&req, "example.com", &cache, SERVER_KEY, &mut failures, "c", 0).unwrap_err(), MatrixLoginError::Forbidden);
    let req = login("@helper:example.com", "wrong", None);
    assert_eq!(login_decision(&req, "example.com", &cache, SERVER_KEY, &mut failures, "c", 0).unwrap_err(), MatrixLoginError::Forbidden);
    assert_eq!(failures.failure_entry("c").unwrap().count, 2);
}

#[test]
fn matrix_login_is_rate_limited_after_five_failures() {
    let cache = cache_with(vec![(7, bot_with_password("helper", "secret"))]);
    let mut failures = AuthFailureCache::new();
    let bad = login("@helper:example.com", "wrong", None);
    for t in 0..5u64 {
        assert_eq!(login_decision(&bad, "example.com", &cache, SERVER_KEY, &mut failures, "c", t * 1000).unwrap_err(), MatrixLoginError::Forbidden);
    }
    let good = login("@helper:example.com", "secret", None);
    assert_eq!(
        login_decision(&good, "example.com", &cache, SERVER_KEY, &mut failures, "c", 6000).unwrap_err(),
        MatrixLoginError::RateLimited { retry_after_secs: 118 }
    );
    // Another client is not affected.
    assert!(login_decision(&good, "example.com", &cache, SERVER_KEY, &mut failures, "d", 6000).is_ok());
}

// ----- access tokens -----

#[test]
fn token_validation_finds_the_key_holder() {
    let mut b = bot_with_password("helper", "secret");
    b.bot_keys.insert(1, key("default", "tok-1"));
    let cache = cache_with(vec![(1, user("alice")), (9, b)]);
    let mut failures = AuthFailureCache::new();
    assert_eq!(validate_token_core(&cache, "tok-1", &mut failures, "c", 0), Ok(9));
    assert_eq!(validate_token_core(&cache, "nope", &mut failures, "c", 0), Err(TokenError::UnknownToken));
    assert_eq!(failures.failure_entry("c").unwrap().count, 1);
    assert_eq!(validate_token_core(&cache, "tok-1", &mut failures, "c", 1), Ok(9));
    assert_eq!(failures.failure_entry("c"), None);
}

#[test]
fn token_validation_is_rate_limited() {
    let cache = cache_with(vec![(1, user("alice"))]);
    let mut failures = AuthFailureCache::new();
    for t in 0..5u64 {
        assert_eq!(validate_token_core(&cache, "bad", &mut failures, "c", t), Err(TokenError::UnknownToken));
    }
    assert_eq!(
        validate_token_core(&cache, "bad", &mut failures, "c", 4),
        Err(TokenError::RateLimited { retry_after_secs: 120 })
    );
}

// ----- password login -----

#[test]
fn password_login_by_email_or_name() {
    let mut alice = user("Alice");
    alice.password = Some(hash_password("pw", SERVER_KEY));
    let cache = cache_with(vec![(1, alice), (2, user("bob"))]);
    assert_eq!(ApiToken::password_login(&cache, true, "ALICE@zimu.pub", "pw", SERVER_KEY), Ok(1));
    assert_eq!(ApiToken::password_login(&cache, true, "alice", "pw", SERVER_KEY), Ok(1));
    assert_eq!(ApiToken::password_login(&cache, true, "alice", "bad", SERVER_KEY), Err(LoginRefusal::InvalidAccount));
    assert_eq!(ApiToken::password_login(&cache, true, "bob", "pw", SERVER_KEY), Err(LoginRefusal::InvalidAccount));
    assert_eq!(ApiToken::password_login(&cache, true, "carol", "pw", SERVER_KEY), Err(LoginRefusal::UserDoesNotExist));
    assert_eq!(ApiToken::password_login(&cache, false, "alice", "pw", SERVER_KEY), Err(LoginRefusal::LoginMethodNotSupported));
}

#[test]
fn issuing_a_token_checks_the_user() {
    let mut frozen = user("frozen");
    frozen.status = UserStatus::Frozen;
    let mut admin = user("root");
    admin.is_admin = true;
    let cache = cache_with(vec![(1, admin), (2, frozen)]);
    let cu = ApiToken::login_user(&cache, 1, "web").unwrap();
    assert_eq!(cu.uid, 1);
    assert_eq!(cu.device, "web");
    assert!(cu.is_admin);
    assert!(!cu.is_guest);
    assert_eq!(ApiToken::login_user(&cache, 2, "web").unwrap_err(), LoginRefusal::Frozen);
    assert_eq!(ApiToken::login_user(&cache, 3, "web").unwrap_err(), LoginRefusal::UserDoesNotExist);
    assert_eq!(default_device(), "unknown");
}

// ----- devices -----

fn device_of<'a>(u: &'a CacheUser, name: &str) -> Option<&'a vachat::state::CacheDevice> {
    u.devices.iter().rev().find(|(n, _)| n == name).map(|(_, d)| d)
}

#[test]
fn login_sets_the_push_token_and_keeps_the_connection() {
    let mut u = user("alice");
    u.devices.push(("web".to_string(), CacheDevice { device_token: None, connected: true }));
    let mut cache = cache_with(vec![(1, u)]);
    cache.login_device(1, "web", Some("fcm-1".to_string()));
    cache.login_device(1, "phone", None);
    let u = &cache.users[&1];
    assert_eq!(u.devices.len(), 2);
    let web = device_of(u, "web").unwrap();
    assert_eq!(web.device_token, Some("fcm-1".to_string()));
    assert!(web.connected);
    let phone = device_of(u, "phone").unwrap();
    assert_eq!(phone.device_token, None);
    assert!(!phone.connected);
    assert!(u.is_online());
}

#[test]
fn push_tokens_are_set_on_known_devices_only() {
    let mut cache = cache_with(vec![(1, user("alice"))]);
    cache.login_device(1, "web", None);
    assert!(cache.update_device_token(1, "web", Some("t".to_string())));
    assert!(cache.update_device_token(1, "tablet", Some("t2".to_string())));
    assert!(!cache.update_device_token(2, "web", None));
    let u = &cache.users[&1];
    assert_eq!(u.devices.len(), 1);
    assert_eq!(device_of(u, "web").unwrap().device_token, Some("t".to_string()));
}

#[test]
fn logout_removes_the_device_and_kicks_an_open_connection() {
    let mut u = user("alice");
    u.devices.push(("web".to_string(), CacheDevice { device_token: None, connected: true }));
    u.devices.push(("cli".to_string(), CacheDevice { device_token: None, connected: false }));
    let mut cache = cache_with(vec![(1, u)]);
    assert_eq!(cache.logout_device(1, "web"), Some(true));
    assert_eq!(cache.logout_device(1, "cli"), Some(false));
    assert_eq!(cache.logout_device(1, "cli"), Some(false));
    assert_eq!(cache.logout_device(7, "web"), None);
    assert!(cache.users[&1].devices.is_empty());
}

#[test]
fn token_pairs_are_renewed_for_the_same_user() {
    let cu = |uid: i64, device: &str| CurrentUser { uid, device: device.to_string(), is_admin: false, is_guest: false };
    assert_eq!(
        token_pair_user(Some((TokenKind::AccessToken, cu(1, "web"))), Some((TokenKind::RefreshToken, cu(1, "web")))),
        Some(cu(1, "web"))
    );
    assert_eq!(token_pair_user(Some((TokenKind::AccessToken, cu(1, "web"))), Some((TokenKind::RefreshToken, cu(1, "app")))), None);
    assert_eq!(token_pair_user(Some((TokenKind::RefreshToken, cu(1, "web"))), Some((TokenKind::RefreshToken, cu(1, "web")))), None);
    assert_eq!(token_pair_user(None, Some((TokenKind::RefreshToken, cu(1, "web")))), None);
}

// ----- the token scenarios -----

fn admin_cache() -> Cache {
    let mut admin = user("admin");
    admin.is_admin = true;
    admin.password = Some(hash_password("123456", SERVER_KEY));
    cache_with(vec![(1, admin)])
}

#[test]
fn test_login() {
    let mut cache = admin_cache();
    let uid = ApiToken::password_login(&cache, true, "admin@zimu.pub", "123456", SERVER_KEY).unwrap();
    assert_eq!(uid, 1);
    let cu = ApiToken::login_user(&cache, uid, "iphone").unwrap();
    assert_eq!(cu.uid, 1);
    assert_eq!(cu.device, "iphone");
    assert!(cu.is_admin);
    cache.login_device(uid, "iphone", Some("test".to_string()));
    assert_eq!(device_of(&cache.users[&1], "iphone").unwrap().device_token.as_deref(), Some("test"));
}

#[test]
fn test_logout() {
    let mut cache = admin_cache();
    cache.login_device(1, "iphone", Some("test".to_string()));
    assert_eq!(cache.logout_device(1, "iphone"), Some(false));
    assert!(device_of(&cache.users[&1], "iphone").is_none());
}

#[test]
fn test_update_device_token() {
    let mut cache = admin_cache();
    cache.login_device(1, "web", None);
    assert!(cache.update_device_token(1, "web", Some("abc".to_string())));
    assert_eq!(device_of(&cache.users[&1], "web").unwrap().device_token.as_deref(), Some("abc"));
    assert!(cache.update_device_token(1, "web", None));
    assert!(device_of(&cache.users[&1], "web").unwrap().device_token.is_none());
}

#[test]
fn test_renew() {
    let cu = CurrentUser { uid: 1, device: "iphone".to_string(), is_admin: true, is_guest: false };
    assert_eq!(
        token_pair_user(Some((TokenKind::AccessToken, cu.clone())), Some((TokenKind::RefreshToken, cu.clone()))),
        Some(cu)
    );
}
