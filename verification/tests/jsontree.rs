use vachat::admin_system::{
    update_common_config, InvalidExtSetting, SystemCommonConfig, UpdateCommonConfigRequest,
};
use vachat::jsontree::{canonical_json, JsonTree};
use vachat::keyed::{extend_members, lookup_member, set_member, take_member};

fn s(t: &str) -> JsonTree {
    JsonTree::Str(t.to_string())
}

fn num(t: &str) -> JsonTree {
    JsonTree::Number(t.to_string())
}

fn obj(members: Vec<(&str, JsonTree)>) -> JsonTree {
    JsonTree::Object(members.into_iter().map(|(k, v)| (k.to_string(), v)).collect())
}

fn members(m: Vec<(&str, JsonTree)>) -> Vec<(String, JsonTree)> {
    m.into_iter().map(|(k, v)| (k.to_string(), v)).collect()
}

fn empty_request() -> UpdateCommonConfigRequest {
    UpdateCommonConfigRequest {
        chat_layout_mode: None,
        contact_verification_enable: None,
        ext_setting: None,
        max_file_expiry_mode: None,
        msg_smtp_notify_delay_seconds: None,
        msg_smtp_notify_enable: None,
        only_admin_can_create_group: None,
        show_user_online_status: None,
        webclient_auto_update: None,
    }
}

// ----- canonical text -----

#[test]
fn canonical_json_orders_members_and_drops_whitespace() {
    let v = obj(vec![
        ("user_id", s("@bot:example.com")),
        ("algorithms", JsonTree::Array(vec![s("m.olm.v1"), s("m.megolm.v1")])),
        ("device_id", s("DEV")),
    ]);
    assert_eq!(
        canonical_json(&v),
        "{\"algorithms\":[\"m.olm.v1\",\"m.megolm.v1\"],\"device_id\":\"DEV\",\"user_id\":\"@bot:example.com\"}"
    );
}

#[test]
fn canonical_json_scalars_and_escapes() {
    assert_eq!(canonical_json(&JsonTree::Bool(true)), "true");
    assert_eq!(canonical_json(&JsonTree::Bool(false)), "false");
    assert_eq!(canonical_json(&num("-12.5")), "-12.5");
    assert_eq!(canonical_json(&JsonTree::Null), "null");
    assert_eq!(canonical_json(&s("a\"b\\c\nd\re\tf")), "\"a\\\"b\\\\c\\nd\\re\\tf\"");
    assert_eq!(canonical_json(&JsonTree::Array(Vec::new())), "[]");
    assert_eq!(canonical_json(&obj(Vec::new())), "{}");
}

#[test]
fn canonical_json_nested_objects_and_null() {
    let v = obj(vec![
        ("z", obj(vec![("b", num("2")), ("a", num("1"))])),
        ("a", JsonTree::Array(vec![JsonTree::Null, JsonTree::Bool(true)])),
        ("n", JsonTree::Null),
    ]);
    assert_eq!(canonical_json(&v), "{\"a\":[null,true],\"z\":{\"a\":1,\"b\":2}}");
}

#[test]
fn canonical_json_leaves_out_null_members() {
    let v = obj(vec![("b", num("1")), ("a", JsonTree::Null)]);
    assert_eq!(canonical_json(&v), "{\"b\":1}");
    assert_eq!(canonical_json(&obj(vec![("a", JsonTree::Null)])), "{}");
}

#[test]
fn canonical_json_keeps_order_of_equal_keys() {
    let v = obj(vec![("k", num("1")), ("a", num("0")), ("k", num("2"))]);
    assert_eq!(canonical_json(&v), "{\"a\":0,\"k\":1,\"k\":2}");
}

// ----- objects as maps -----

#[test]
fn members_are_set_looked_up_and_taken() {
    let mut m = members(vec![("a", num("1")), ("b", num("2")), ("a", num("3"))]);
    assert_eq!(lookup_member(&m, "a"), Some(&num("3")));
    assert_eq!(lookup_member(&m, "c"), None);
    set_member(&mut m, "a".to_string(), s("x"));
    assert_eq!(m, members(vec![("b", num("2")), ("a", s("x"))]));
    assert_eq!(take_member(&mut m, "b"), Some(num("2")));
    assert_eq!(m, members(vec![("a", s("x"))]));
    assert_eq!(take_member(&mut m, "b"), None);
    extend_members(&mut m, members(vec![("c", JsonTree::Bool(true)), ("a", JsonTree::Null)]));
    assert_eq!(lookup_member(&m, "a"), Some(&JsonTree::Null));
    assert_eq!(lookup_member(&m, "c"), Some(&JsonTree::Bool(true)));
}

// ----- common settings -----

#[test]
fn common_settings_default_when_missing() {
    let c = SystemCommonConfig::from_members(&Vec::new(), None);
    assert_eq!(c.chat_layout_mode, "Left");
    assert!(c.contact_verification_enable);
    assert_eq!(c.ext_setting, None);
    assert_eq!(c.max_file_expiry_mode, "Off");
    assert_eq!(c.msg_smtp_notify_delay_seconds, 0);
    assert!(!c.msg_smtp_notify_enable);
    assert!(!c.only_admin_can_create_group);
    assert!(c.show_user_online_status);
    assert!(c.webclient_auto_update);
}

#[test]
fn common_settings_of_another_type_are_at_their_default() {
    let config = members(vec![
        ("chat_layout_mode", JsonTree::Bool(true)),
        ("show_user_online_status", s("no")),
        ("msg_smtp_notify_delay_seconds", num("1.5")),
    ]);
    let c = SystemCommonConfig::from_members(&config, None);
    assert_eq!(c.chat_layout_mode, "Left");
    assert!(c.show_user_online_status);
    assert_eq!(c.msg_smtp_notify_delay_seconds, 0);
}

#[test]
fn partial_update_merges_into_the_stored_settings() {
    let mut config = members(vec![
        ("chat_layout_mode", s("SelfRight")),
        ("ext_setting", obj(vec![("a", JsonTree::Bool(true)), ("keep", num("7"))])),
        ("custom", num("1")),
    ]);
    let mut req = empty_request();
    req.show_user_online_status = Some(false);
    req.msg_smtp_notify_delay_seconds = Some(-30);
    req.max_file_expiry_mode = Some("Days30".to_string());
    req.ext_setting = Some("{\"b\":2,\"a\":false}".to_string());
    let ext = obj(vec![("b", num("2")), ("a", JsonTree::Bool(false))]);
    assert_eq!(update_common_config(&mut config, req, Some(ext)), Ok(()));
    let c = SystemCommonConfig::from_members(&config, None);
    assert_eq!(c.chat_layout_mode, "SelfRight");
    assert!(!c.show_user_online_status);
    assert_eq!(c.msg_smtp_notify_delay_seconds, -30);
    assert_eq!(c.max_file_expiry_mode, "Days30");
    assert_eq!(lookup_member(&config, "custom"), Some(&num("1")));
    let merged = lookup_member(&config, "ext_setting").unwrap();
    assert_eq!(canonical_json(merged), "{\"a\":false,\"b\":2,\"keep\":7}");
}

#[test]
fn extension_settings_are_created_when_missing() {
    let mut config = Vec::new();
    let mut req = empty_request();
    req.ext_setting = Some("{\"enable_msg_url_preview\":true}".to_string());
    let ext = obj(vec![("enable_msg_url_preview", JsonTree::Bool(true))]);
    assert_eq!(update_common_config(&mut config, req, Some(ext)), Ok(()));
    assert_eq!(canonical_json(lookup_member(&config, "ext_setting").unwrap()), "{\"enable_msg_url_preview\":true}");
}

#[test]
fn extension_settings_that_are_not_an_object_are_refused() {
    let original = || members(vec![("chat_layout_mode", s("Left"))]);
    let mut config = original();
    let mut req = empty_request();
    req.chat_layout_mode = Some("SelfRight".to_string());
    req.ext_setting = Some("[1]".to_string());
    assert_eq!(
        update_common_config(&mut config, req, Some(JsonTree::Array(vec![num("1")]))),
        Err(InvalidExtSetting)
    );
    assert_eq!(config, original());
    let mut req = empty_request();
    req.ext_setting = Some("not json".to_string());
    assert_eq!(update_common_config(&mut config, req, None), Err(InvalidExtSetting));
    assert_eq!(config, original());
}

#[test]
fn stored_extension_settings_of_another_type_are_kept() {
    let mut config = members(vec![("ext_setting", s("legacy"))]);
    let mut req = empty_request();
    req.ext_setting = Some("{\"a\":1}".to_string());
    assert_eq!(update_common_config(&mut config, req, Some(obj(vec![("a", num("1"))]))), Ok(()));
    assert_eq!(lookup_member(&config, "ext_setting"), Some(&s("legacy")));
}
