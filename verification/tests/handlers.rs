use navhub::errors::{ApiError, ErrorBody};
use navhub::handlers::{list_apps_query, require_found, status_param, write_error};
use navhub::models::{AppOut, AppRow, CategoryOut, SettingsOut};
use navhub::seed::{default_categories, sample_apps, seed_plan, SeedState};
use navhub::upload::{check_magic_bytes, check_upload_content, upload_body_limit, upload_name, upload_suffix};

fn message_of(e: &ApiError) -> String {
    match &e.body {
        ErrorBody::Message(m) => m.clone(),
        ErrorBody::Fields(v) => format!("{}:{}", v[0].typ, v[0].loc.join(".")),
    }
}

#[test]
fn listing_queries() {
    let base = "SELECT id, name, url, description, icon_type, icon_value, color, category_id, sort_order, status, created_at, updated_at FROM apps ";
    assert_eq!(list_apps_query(None, true).unwrap(), format!("{base}WHERE status = 1 ORDER BY sort_order, id"));
    assert_eq!(list_apps_query(Some("true"), true).unwrap(), format!("{base} ORDER BY sort_order, id"));
    assert_eq!(list_apps_query(Some("true"), false).unwrap(), format!("{base}WHERE status = 1 ORDER BY sort_order, id"));
    assert_eq!(list_apps_query(Some("0"), true).unwrap(), format!("{base}WHERE status = 1 ORDER BY sort_order, id"));
    let e = list_apps_query(Some("maybe"), true).unwrap_err();
    assert_eq!(e.status, 422);
    assert_eq!(message_of(&e), "bool_parsing:query.all");
}

#[test]
fn status_parameters() {
    assert_eq!(status_param(Some("false")).unwrap(), false);
    assert_eq!(status_param(Some("1")).unwrap(), true);
    assert_eq!(message_of(&status_param(None).unwrap_err()), "missing:query.status");
    assert_eq!(message_of(&status_param(Some("x")).unwrap_err()), "bool_parsing:query.status");
}

#[test]
fn write_errors() {
    let e = write_error(true, "分类名称已存在");
    assert_eq!((e.status, message_of(&e).as_str()), (400, "分类名称已存在"));
    let e = write_error(false, "分类名称已存在");
    assert_eq!((e.status, message_of(&e).as_str()), (500, "服务器内部错误"));
}

#[test]
fn test_update_nonexistent_app() {
    let e = require_found(0, "应用不存在").unwrap_err();
    assert_eq!((e.status, message_of(&e).as_str()), (404, "应用不存在"));
    assert!(require_found(1, "应用不存在").is_ok());
}

#[test]
fn app_rows() {
    let row = AppRow {
        id: 4,
        name: "n".to_string(),
        url: "https://u".to_string(),
        description: None,
        icon_type: Some("builtin".to_string()),
        icon_value: None,
        color: None,
        category_id: Some(2),
        sort_order: None,
        status: None,
        created_at: None,
        updated_at: Some("t".to_string()),
    };
    let a = AppOut::from_row(row);
    assert_eq!((a.id, a.sort_order, a.status), (4, 0, true));
    assert_eq!(a.icon_type.as_deref(), Some("builtin"));
    assert_eq!(a.category_id, Some(2));
    assert_eq!((a.created_at.as_str(), a.updated_at.as_str()), ("", "t"));
}

#[test]
fn category_rows() {
    let c = CategoryOut::from_row(1, "常用工具".to_string(), Some("tool".to_string()), None, 3);
    assert_eq!((c.id, c.sort_order, c.app_count), (1, 0, 3));
    let c = CategoryOut::from_row(1, "x".to_string(), None, Some(7), 0);
    assert_eq!(c.sort_order, 7);
}

#[test]
fn test_settings_read_update() {
    let s = SettingsOut::from_rows(&vec![]);
    assert_eq!((s.site_name.as_str(), s.site_description.as_str()), ("NavHub", "我的应用导航"));
    let rows = vec![
        ("site_name".to_string(), Some("NavHub".to_string())),
        ("site_description".to_string(), None),
        ("other".to_string(), Some("x".to_string())),
        ("site_name".to_string(), Some("我的导航".to_string())),
    ];
    let s = SettingsOut::from_rows(&rows);
    assert_eq!(s.site_name, "我的导航");
    assert_eq!(s.site_description, "我的应用导航");
}

#[test]
fn test_upload_requires_auth_and_validates() {
    assert_eq!(upload_suffix(Some("icon.PNG"), Some("image/png")).unwrap(), ".png");
    assert_eq!(upload_suffix(Some("a.b.JpEg"), Some("application/octet-stream")).unwrap(), ".jpeg");
    let e = upload_suffix(Some("page.html"), Some("text/html")).unwrap_err();
    assert_eq!((e.status, message_of(&e).as_str()), (400, "不支持的文件类型"));
    let e = upload_suffix(Some("page.html"), Some("image/png")).unwrap_err();
    assert_eq!(message_of(&e), "仅支持图片格式：png/jpg/jpeg/gif/webp/svg/ico");
    let e = upload_suffix(Some("noext"), Some("image/png")).unwrap_err();
    assert_eq!(message_of(&e), "仅支持图片格式：png/jpg/jpeg/gif/webp/svg/ico");
    let e = upload_suffix(Some("dot."), Some("image/png")).unwrap_err();
    assert_eq!(message_of(&e), "仅支持图片格式：png/jpg/jpeg/gif/webp/svg/ico");
    let e = upload_suffix(None, Some("image/png")).unwrap_err();
    assert_eq!(message_of(&e), "缺少文件");
    let e = upload_suffix(Some("a.png"), None).unwrap_err();
    assert_eq!(message_of(&e), "不支持的文件类型");

    let mut png: Vec<u8> = b"\x89PNG\r\n\x1a\n".to_vec();
    png.extend_from_slice(&[7u8; 64]);
    assert!(check_upload_content(Some(&png), ".png", 2).is_ok());
    let e = check_upload_content(Some(b"<?php system($_GET[0]); ?>"), ".png", 2).unwrap_err();
    assert_eq!((e.status, message_of(&e).as_str()), (400, "文件内容与格式不符"));
    let e = check_upload_content(Some(b""), ".png", 2).unwrap_err();
    assert_eq!(message_of(&e), "文件内容为空");
    let big = vec![0u8; 1024 * 1024 + 1];
    let e = check_upload_content(Some(&big), ".svg", 1).unwrap_err();
    assert_eq!((e.status, message_of(&e).as_str()), (413, "文件大小不能超过 1MB"));
    let e = check_upload_content(None, ".svg", 3).unwrap_err();
    assert_eq!((e.status, message_of(&e).as_str()), (413, "文件大小不能超过 3MB"));
    assert!(check_upload_content(Some(&vec![0u8; 1024 * 1024]), ".svg", 1).is_ok());
}

#[test]
fn magic_bytes() {
    assert!(check_magic_bytes(b"GIF89a...", ".gif").is_ok());
    assert!(check_magic_bytes(b"RIFF....WEBP", ".webp").is_ok());
    assert!(check_magic_bytes(b"RIF", ".webp").is_err());
    assert!(check_magic_bytes(b"anything", ".jpg").is_ok());
    assert!(check_magic_bytes(b"<svg/>", ".svg").is_ok());
    assert!(check_magic_bytes(b"\x89PNX", ".png").is_err());
}

#[test]
fn upload_names() {
    let a = upload_name(".png");
    let b = upload_name(".png");
    assert_eq!(a.filename.len(), 36);
    assert!(a.filename.ends_with(".png"));
    assert!(a.filename[..32].chars().all(|c| c.is_ascii_digit() || ('a'..='f').contains(&c)));
    assert_eq!(a.url, format!("/uploads/{}", a.filename));
    assert_ne!(a.filename, b.filename);
    assert_eq!(upload_body_limit(2), 2 * 1024 * 1024 + 128 * 1024);
}

#[test]
fn test_seed_data_exists() {
    let cats = default_categories();
    let names: Vec<&str> = cats.iter().map(|c| c.name.as_str()).collect();
    assert_eq!(names, vec!["常用工具", "开发运维", "影音娱乐", "网盘存储", "系统设备"]);
    assert_eq!(cats[4].icon, "server");
    let apps = sample_apps();
    assert_eq!(apps.len(), 3);
    assert_eq!(apps[0].url, "http://localhost:8100/");
    assert_eq!(apps[2].category, "开发运维");

    let fresh = seed_plan(&SeedState { admin_count: 0, category_counts: vec![0; 5], app_count: 0 }, "NavHub");
    assert!(fresh.create_admin);
    assert_eq!(fresh.categories.len(), 5);
    assert_eq!(fresh.apps.len(), 3);
    assert_eq!(fresh.settings[0], ("site_name".to_string(), "NavHub".to_string()));
    assert_eq!(fresh.settings[1].1, "集中管理与快速访问我的所有 Web 应用");

    let partial = seed_plan(&SeedState { admin_count: 1, category_counts: vec![1, 0, 1, 0, 1], app_count: 2 }, "X");
    assert!(!partial.create_admin);
    let names: Vec<&str> = partial.categories.iter().map(|c| c.name.as_str()).collect();
    assert_eq!(names, vec!["开发运维", "网盘存储"]);
    assert!(partial.apps.is_empty());

    let done = seed_plan(&SeedState { admin_count: 1, category_counts: vec![1; 5], app_count: 1 }, "X");
    assert!(!done.create_admin && done.categories.is_empty() && done.apps.is_empty());
}
