use vachat::admin_system::{
    admin_file, admin_files, default_page_size, file_page, first_lines, page_bounds, ApiAdminSystem,
    AppVersionInfo, BadUrlFormat, FileMessage, OrganizationConfig, SystemCommonConfig,
};

#[test]
fn test_frontend_url() {
    let ok = |u: &str| ApiAdminSystem::validate_frontend_url(u).is_ok();
    assert!(ok("http://1.2.3.4:4000"));
    assert!(ok("http://domain.com"));
    assert!(ok("http://domain.com:3000"));
    assert!(ok("https://domain.com:3000"));
    assert!(ok("http://127.0.0.1"));
    assert!(ok("http://127.0.0.1:3000"));
    assert!(ok("https://127.0.0.1:3000"));
    assert!(!ok("ftp://127.0.0.1:3000"));
}

#[test]
fn frontend_url_trailing_slashes_are_removed() {
    assert_eq!(
        ApiAdminSystem::validate_frontend_url("http://domain.com:3000//"),
        Ok("http://domain.com:3000".to_string())
    );
    assert_eq!(
        ApiAdminSystem::validate_frontend_url("http://domain.com/path"),
        Err(BadUrlFormat)
    );
    assert_eq!(ApiAdminSystem::validate_frontend_url(""), Err(BadUrlFormat));
}

#[test]
fn accept_frontend_url_by_match() {
    assert_eq!(
        ApiAdminSystem::accept_frontend_url("x".to_string(), Some(true)),
        Ok("x".to_string())
    );
    assert_eq!(
        ApiAdminSystem::accept_frontend_url("x".to_string(), Some(false)),
        Err(BadUrlFormat)
    );
    assert_eq!(ApiAdminSystem::accept_frontend_url("x".to_string(), None), Err(BadUrlFormat));
}

#[test]
fn page_bounds_of_file_list() {
    assert_eq!(default_page_size(), 100);
    assert_eq!(page_bounds(1, 100, 250), (0, 100));
    assert_eq!(page_bounds(3, 100, 250), (200, 250));
    assert_eq!(page_bounds(4, 100, 250), (0, 0));
    assert_eq!(page_bounds(0, 10, 25), (0, 10));
    assert_eq!(page_bounds(2, 5000, 2500), (1000, 2000));
    assert_eq!(page_bounds(u64::MAX, u64::MAX, 10), (0, 0));
}

#[test]
fn change_log_first_lines() {
    assert_eq!(first_lines("a\nb\nc\n", 2), "a\nb");
    assert_eq!(first_lines("a\r\nb\r\n", 5), "a\nb");
    assert_eq!(first_lines("a\nb", 5), "a\nb");
    assert_eq!(first_lines("", 5), "");
    assert_eq!(first_lines("x\n\ny", 0), "");
    assert_eq!(first_lines("x\n\ny", 2), "x\n");
}

#[test]
fn organization_and_common_defaults() {
    let org = OrganizationConfig::new_default();
    assert_eq!(org.name, "unknown");
    assert!(org.description.is_none());

    let c = SystemCommonConfig::from_stored(None, None, None, None, None, None, None, None, None);
    assert_eq!(c.chat_layout_mode, "Left");
    assert!(c.contact_verification_enable);
    assert_eq!(c.max_file_expiry_mode, "Off");
    assert_eq!(c.msg_smtp_notify_delay_seconds, 0);
    assert!(!c.msg_smtp_notify_enable);
    assert!(!c.only_admin_can_create_group);
    assert!(c.show_user_online_status);
    assert!(c.webclient_auto_update);

    let c = SystemCommonConfig::from_stored(
        Some("SelfRight".to_string()),
        Some(false),
        Some("{}".to_string()),
        Some("Day7".to_string()),
        Some(300),
        Some(true),
        Some(true),
        Some(false),
        Some(false),
    );
    assert_eq!(c.chat_layout_mode, "SelfRight");
    assert!(!c.contact_verification_enable);
    assert_eq!(c.ext_setting.as_deref(), Some("{}"));
    assert_eq!(c.max_file_expiry_mode, "Day7");
    assert_eq!(c.msg_smtp_notify_delay_seconds, 300);
    assert!(c.msg_smtp_notify_enable);
    assert!(c.only_admin_can_create_group);
    assert!(!c.show_user_online_status);
    assert!(!c.webclient_auto_update);
}

fn file_message(mid: i64, name: Option<&str>, file_type: Option<&str>) -> FileMessage {
    FileMessage {
        mid,
        from_uid: 2,
        gid: None,
        content_type: "vachat/file".to_string(),
        content: format!("/file/{}", mid),
        file_content_type: file_type.map(|t| t.to_string()),
        file_name: name.map(|n| n.to_string()),
        properties: String::new(),
        expires_in: None,
        created_at: 1_000,
    }
}

#[test]
fn file_entries_of_file_messages() {
    let mut img = file_message(1, Some("photo.final.PNG"), Some("image/png"));
    img.gid = Some(7);
    img.properties = "{\"name\":\"photo.final.PNG\"}".to_string();
    let f = admin_file(&img, 2_000).unwrap();
    assert_eq!(f.ext, "PNG");
    assert_eq!(f.gid, 7);
    assert_eq!(f.content_type, "image/png");
    assert_eq!(f.thumbnail, "/file/1");
    assert_eq!(f.properties, "{\"name\":\"photo.final.PNG\"}");
    assert!(!f.expired);

    let doc = admin_file(&file_message(2, None, None), 2_000).unwrap();
    assert_eq!(doc.ext, "");
    assert_eq!(doc.content_type, "application/octet-stream");
    assert_eq!(doc.thumbnail, "");
    assert_eq!(doc.gid, 0);
    assert_eq!(admin_file(&file_message(3, Some(".bashrc"), None), 2_000).unwrap().ext, "");
    assert_eq!(admin_file(&file_message(4, Some("archive.tar.gz"), None), 2_000).unwrap().ext, "gz");

    let mut text = file_message(5, None, None);
    text.content_type = "text/plain".to_string();
    assert!(admin_file(&text, 2_000).is_none());
}

#[test]
fn burned_file_messages_are_expired() {
    let mut m = file_message(1, Some("a.txt"), None);
    m.expires_in = Some(10);
    assert!(!admin_file(&m, 11_999).unwrap().expired);
    assert!(admin_file(&m, 12_000).unwrap().expired);
    // A message half a second in the future is 0 whole seconds old.
    m.created_at = 100_000;
    m.expires_in = Some(-1);
    assert!(admin_file(&m, 99_500).unwrap().expired);
    m.expires_in = Some(0);
    assert!(!admin_file(&m, 99_500).unwrap().expired);
}

#[test]
fn the_file_list_is_paged() {
    let mut msgs: Vec<FileMessage> = (1..=5).map(|i| file_message(i, Some("f.txt"), None)).collect();
    msgs[2].content_type = "text/plain".to_string();
    let files = admin_files(&msgs, 2_000);
    assert_eq!(files.iter().map(|f| f.mid).collect::<Vec<_>>(), vec![1, 2, 4, 5]);
    assert_eq!(file_page(&files, 1, 3).iter().map(|f| f.mid).collect::<Vec<_>>(), vec![1, 2, 4]);
    assert_eq!(file_page(&files, 2, 3).iter().map(|f| f.mid).collect::<Vec<_>>(), vec![5]);
    assert!(file_page(&files, 3, 3).is_empty());
    assert_eq!(file_page(&files, 0, 2).iter().map(|f| f.mid).collect::<Vec<_>>(), vec![1, 2]);
}

#[test]
fn releases_are_found_by_lower_case_platform() {
    let info = AppVersionInfo {
        version_code: 12,
        version_name: "1.2".to_string(),
        build_time: "2024-01-01".to_string(),
        description: "fixes".to_string(),
        file_url: "https://x/app.apk".to_string(),
    };
    let versions = vec![("android".to_string(), info)];
    let found = ApiAdminSystem::version_for(&versions, Some("Android")).unwrap();
    assert_eq!(found.version_code, 12);
    assert_eq!(found.file_url, "https://x/app.apk");
    assert!(ApiAdminSystem::version_for(&versions, Some("ios")).is_none());
    assert!(ApiAdminSystem::version_for(&versions, None).is_none());
}
