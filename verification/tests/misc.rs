use std::collections::{BTreeMap, HashMap, HashSet};

use vachat::config::{
    log_level_or_default, Config, EnvironmentVars, NetworkConfig, Options, SystemConfig, TlsConfig,
};
use vachat::create_user::{CreateUser, CreateUserBy, CreateUserError};
use vachat::crypto::{create_third_party_key, get_pickle_key, verify_third_party_key};
use vachat::files::{dated_dir, expired_after, expired_dir};
use vachat::hexcode::{hex_decode, hex_encode};
use vachat::num::{format_i64, format_u64, parse_i64};
use vachat::server::{api_server_urls, create_random_str};
use vachat::state::{Cache, CacheUser, UserStatus};

fn user(name: &str, email: Option<&str>) -> CacheUser {
    CacheUser {
        email: email.map(|e| e.to_string()),
        name: name.to_string(),
        password: None,
        gender: 0,
        is_admin: false,
        language: "en-US".to_string(),
        create_by: "password".to_string(),
        devices: Vec::new(),
        mute_user: HashMap::new(),
        mute_group: HashMap::new(),
        burn_after_reading_user: HashMap::new(),
        burn_after_reading_group: HashMap::new(),
        read_index_user: HashMap::new(),
        read_index_group: HashMap::new(),
        pinned_chat_user: HashSet::new(),
        pinned_chat_group: HashSet::new(),
        contacts: HashMap::new(),
        created_at: 0,
        updated_at: 0,
        avatar_updated_at: 0,
        status: UserStatus::Normal,
        is_guest: false,
        webhook_url: None,
        is_bot: false,
        bot_keys: HashMap::new(),
        bot_online: false,
    }
}

fn cache_with(users: Vec<(i64, CacheUser)>) -> Cache {
    Cache { groups: BTreeMap::new(), users: users.into_iter().collect() }
}

fn parts(p: &[&str]) -> Vec<String> {
    p.iter().map(|s| s.to_string()).collect()
}

fn config() -> Config {
    Config {
        system: SystemConfig { data_dir: "data".to_string(), wwwroot_dir: None, log_level: None },
        network: NetworkConfig {
            domain: vec!["a.com".to_string()],
            bind: "0.0.0.0:3000".to_string(),
            tls: Some(TlsConfig::SelfSigned),
            frontend_url: String::new(),
            matrix_domain: None,
        },
    }
}

fn options() -> Options {
    Options {
        config: "config.toml".to_string(),
        network_domain: Vec::new(),
        network_bind: None,
        network_tls_type: None,
        network_tls_cert_path: None,
        network_tls_key_path: None,
        network_tls_acme_http_bind: None,
        frontend_url: None,
        network_tls_acme_directory_url: "https://acme.example/dir".to_string(),
        network_tls_acme_cache_path: None,
    }
}

// ----- numbers and hexadecimal -----

#[test]
fn numbers_format_and_parse() {
    assert_eq!(format_u64(0).iter().collect::<String>(), "0");
    assert_eq!(format_u64(1234567890).iter().collect::<String>(), "1234567890");
    assert_eq!(format_i64(-42).iter().collect::<String>(), "-42");
    assert_eq!(format_i64(i64::MIN).iter().collect::<String>(), "-9223372036854775808");
    assert_eq!(parse_i64("42"), Some(42));
    assert_eq!(parse_i64("+7"), Some(7));
    assert_eq!(parse_i64("-9223372036854775808"), Some(i64::MIN));
    assert_eq!(parse_i64("9223372036854775808"), None);
    assert_eq!(parse_i64(""), None);
    assert_eq!(parse_i64("-"), None);
    assert_eq!(parse_i64("1a"), None);
}

#[test]
fn integers_round_trip_through_text() {
    for n in [0i64, 1, -1, 987654321, i64::MAX, i64::MIN] {
        let s: String = format_i64(n).iter().collect();
        assert_eq!(parse_i64(&s), Some(n));
    }
}

#[test]
fn hexadecimal_round_trip() {
    assert_eq!(hex_encode(&[0x00, 0xab, 0x7f, 0xff]), "00ab7fff");
    assert_eq!(hex_decode("00AB7fff"), Some(vec![0x00, 0xab, 0x7f, 0xff]));
    assert_eq!(hex_decode("abc"), None);
    assert_eq!(hex_decode("zz"), None);
    let bytes: Vec<u8> = (0..=255u8).collect();
    assert_eq!(hex_decode(&hex_encode(&bytes)), Some(bytes));
}

// ----- keys -----

#[test]
fn pickle_key_is_32_bytes_and_depends_on_the_server_key() {
    let a = get_pickle_key("k1");
    let b = get_pickle_key("k2");
    assert_eq!(a.len(), 32);
    assert_ne!(a, b);
    assert_eq!(a, get_pickle_key("k1"));
}

#[test]
fn third_party_key_round_trip() {
    let key = create_third_party_key("server", b"{\"userid\":\"u1\"}");
    assert_eq!(key.len(), 2 * (32 + 15));
    let bytes = hex_decode(&key).unwrap();
    assert_eq!(verify_third_party_key("server", &bytes), Some(b"{\"userid\":\"u1\"}".to_vec()));
    assert_eq!(verify_third_party_key("other", &bytes), None);
    let mut tampered = bytes.clone();
    let last = tampered.len() - 1;
    tampered[last] ^= 1;
    assert_eq!(verify_third_party_key("server", &tampered), None);
}

// ----- stored files -----

#[test]
fn test_clear_file_dir() {
    // The directories 2022/1/1 to 2022/1/8 with an expiry of 7 days: seen on
    // 2022/1/10 the first two are removed, seen on 2022/1/12 two more.
    let mut dirs: Vec<u32> = (1..=8).collect();
    let mut clean = |now: (i32, u32, u32)| {
        dirs.retain(|d| !expired_dir(&parts(&["2022", "1", &d.to_string()]), now, 7));
        dirs.clone()
    };
    assert_eq!(clean((2022, 1, 10)), vec![3, 4, 5, 6, 7, 8]);
    assert_eq!(clean((2022, 1, 12)), vec![5, 6, 7, 8]);
}

#[test]
fn undated_directories_are_kept() {
    let now = (2022, 1, 10);
    assert!(!expired_dir(&parts(&["2022", "1"]), now, 0));
    assert!(!expired_dir(&parts(&["2022", "x", "1"]), now, 0));
    assert!(!expired_dir(&parts(&["2022", "2", "30"]), (2023, 1, 1), 0));
    assert!(!expired_dir(&parts(&["2022", "-1", "3"]), (2023, 1, 1), 0));
    assert_eq!(dated_dir(&parts(&["2021", "12", "31"])), Some((2021, 12, 31)));
    assert_eq!(dated_dir(&parts(&["2021", "12"])), None);
    assert!(expired_after(Some(8), 7));
    assert!(!expired_after(Some(7), 7));
    assert!(!expired_after(None, 7));
}

// ----- server -----

#[test]
fn api_servers_list_local_domains_and_frontend() {
    let domains = vec!["a.com".to_string(), "b.org".to_string()];
    assert_eq!(
        api_server_urls(&domains, None, "https://chat.example/"),
        vec!["http://localhost:3000/api", "https://a.com/api", "https://b.org/api", "https://chat.example/api"]
    );
    assert_eq!(
        api_server_urls(&domains, Some("https://x.example"), "https://chat.example/"),
        vec!["http://localhost:3000/api", "https://a.com/api", "https://b.org/api", "https://x.example/api"]
    );
    assert_eq!(api_server_urls(&Vec::new(), None, ""), vec!["http://localhost:3000/api"]);
}

#[test]
fn random_strings_are_alphanumeric() {
    let s = create_random_str(32);
    assert_eq!(s.chars().count(), 32);
    assert!(s.chars().all(|c| c.is_ascii_alphanumeric()));
    assert_eq!(create_random_str(0), "");
}

// ----- configuration -----

#[test]
fn environment_overrides_directories() {
    let env = EnvironmentVars { data_dir: Some("/var/vachat".to_string()), wwwroot_dir: Some("/www".to_string()) };
    let c = env.merge_to_config(config());
    assert_eq!(c.system.data_dir, "/var/vachat");
    assert_eq!(c.system.wwwroot_dir, Some("/www".to_string()));
    let c = EnvironmentVars::default().merge_to_config(config());
    assert_eq!(c.system.data_dir, "data");
    assert_eq!(c.system.wwwroot_dir, None);
}

#[test]
fn options_override_the_network() {
    let mut o = options();
    o.network_domain = vec!["b.com".to_string()];
    o.network_bind = Some("127.0.0.1:80".to_string());
    o.network_tls_type = Some("none".to_string());
    o.frontend_url = Some("https://f.example".to_string());
    let c = o.merge_to_config(config());
    assert_eq!(c.network.domain, vec!["a.com".to_string(), "b.com".to_string()]);
    assert_eq!(c.network.bind, "127.0.0.1:80");
    assert_eq!(c.network.tls, None);
    assert_eq!(c.network.frontend_url, "https://f.example");
}

#[test]
fn tls_type_options() {
    let mut o = options();
    o.network_tls_type = Some("certificate".to_string());
    o.network_tls_cert_path = Some("c.pem".to_string());
    o.network_tls_key_path = Some("k.pem".to_string());
    assert_eq!(
        o.merge_to_config(config()).network.tls,
        Some(TlsConfig::Certificate { cert: None, cert_path: Some("c.pem".to_string()), key: None, key_path: Some("k.pem".to_string()) })
    );
    // A certificate without its key keeps the file's setting.
    let mut o = options();
    o.network_tls_type = Some("certificate".to_string());
    o.network_tls_cert_path = Some("c.pem".to_string());
    assert_eq!(o.merge_to_config(config()).network.tls, Some(TlsConfig::SelfSigned));
    let mut o = options();
    o.network_tls_type = Some("acme_tls_alpn_01".to_string());
    assert_eq!(
        o.merge_to_config(config()).network.tls,
        Some(TlsConfig::AcmeTlsAlpn01 { directory_url: Some("https://acme.example/dir".to_string()), cache_path: None })
    );
    let mut o = options();
    o.network_tls_type = Some("bogus".to_string());
    assert_eq!(o.merge_to_config(config()).network.tls, Some(TlsConfig::SelfSigned));
}

#[test]
fn log_level_defaults() {
    assert_eq!(log_level_or_default(None), "vachat=debug,poem=debug");
    assert_eq!(log_level_or_default(Some("")), "vachat=debug,poem=debug");
    assert_eq!(log_level_or_default(Some("info")), "info");
}

// ----- users -----

#[test]
fn new_user_name_and_email_must_be_free() {
    let cache = cache_with(vec![(1, user("Alice", Some("alice@zimu.pub")))]);
    let by = CreateUserBy::Password { email: "ALICE@zimu.pub", password: "pw" };
    assert_eq!(cache.check_new_user(&CreateUser::new("bob", by, false)), Err(CreateUserError::EmailConflict));
    assert_eq!(cache.check_new_user(&CreateUser::new("alice", CreateUserBy::Guest, false)), Err(CreateUserError::NameConflict));
    let by = CreateUserBy::Password { email: "bob@zimu.pub", password: "pw" };
    assert_eq!(cache.check_new_user(&CreateUser::new("bob", by, false)), Ok(()));
}

#[test]
fn created_user_cache_entry() {
    let by = CreateUserBy::OpenIdConnect { issuer: "iss", subject: "sub", email: Some("o@x.com") };
    let cu = CreateUser::new("olga", by, true).gender(1).avatar(b"png").webhook_url("https://hook");
    assert_eq!(by.creation_kind(), "oidc");
    let u = cu.cache_user(None, "zh-CN".to_string(), 99);
    assert_eq!(u.name, "olga");
    assert_eq!(u.email, Some("o@x.com".to_string()));
    assert_eq!(u.create_by, "oidc");
    assert_eq!(u.gender, 1);
    assert!(u.is_admin);
    assert_eq!(u.avatar_updated_at, 99);
    assert_eq!(u.created_at, 99);
    assert_eq!(u.webhook_url, Some("https://hook".to_string()));
    assert!(!u.is_guest);
    let g = CreateUser::new("guest1", CreateUserBy::Guest, false).cache_user(None, "en-US".to_string(), 5);
    assert!(g.is_guest);
    assert_eq!(g.create_by, "guest");
    assert_eq!(g.avatar_updated_at, 0);
    assert_eq!(g.email, None);
}

#[test]
fn usernames_are_assigned_from_name_or_email() {
    let cache = cache_with(vec![(1, user("alice", None))]);
    assert_eq!(cache.assign_username(Some("bob"), None), Some("bob".to_string()));
    assert_eq!(cache.assign_username(None, Some("carol@x.com")), Some("carol".to_string()));
    let taken = cache.assign_username(Some("ALICE"), None).unwrap();
    assert!(taken.starts_with("ALICE"));
    let n: u32 = taken["ALICE".len()..].parse().unwrap();
    assert!((1111..9999).contains(&n));
    let numbered = cache.assign_username(None, None).unwrap();
    let n: u32 = numbered["User".len()..].parse().unwrap();
    assert!((111111..999999).contains(&n));
}
