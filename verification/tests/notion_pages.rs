use memolo::notion::{
    build_export_page, export_parent_page, export_result_from_fields, export_token,
    map_status_error, notion_clear_config, notion_export_response, notion_get_config,
    notion_set_config, status_error_message, ConfigJson, KeychainDelete, KeychainRead,
};
use memolo::title::{build_title, title_from_stamp};

fn cfg(parent: Option<&str>) -> ConfigJson {
    ConfigJson { notion_parent_page_id: parent.map(|s| s.to_string()) }
}

#[test]
fn config_default_has_no_parent() {
    let c = ConfigJson::default();
    assert!(c.notion_parent_page_id.is_none());
}

#[test]
fn status_configured_needs_token_and_parent() {
    let st = notion_get_config(cfg(Some("p")), KeychainRead::Found("t".into())).ok().unwrap();
    assert!(st.configured);
    assert_eq!(st.parent_page_id.as_deref(), Some("p"));
    let st = notion_get_config(cfg(None), KeychainRead::Found("t".into())).ok().unwrap();
    assert!(!st.configured);
    assert!(st.parent_page_id.is_none());
    let st = notion_get_config(cfg(Some("p")), KeychainRead::NoEntry).ok().unwrap();
    assert!(!st.configured);
    assert_eq!(st.parent_page_id.as_deref(), Some("p"));
    let err = notion_get_config(cfg(Some("p")), KeychainRead::Failed("locked".into())).err().unwrap();
    assert_eq!(err, "keychain read: locked");
}

#[test]
fn settings_are_validated() {
    let s = notion_set_config("  ntn_abc  ", " https://notion.so/x-0123456789abcdef0123456789abcdef ")
        .ok()
        .unwrap();
    assert_eq!(s.token, "ntn_abc");
    assert_eq!(s.parent_page_id, "01234567-89ab-cdef-0123-456789abcdef");
    assert_eq!(notion_set_config(" \t", "0123456789abcdef0123456789abcdef").err().unwrap(), "トークンが空です");
    assert_eq!(
        notion_set_config("tok", "no id here").err().unwrap(),
        "ページ ID または URL に 32 文字の hex が含まれていません"
    );
}

#[test]
fn clearing_tolerates_missing_token() {
    assert!(notion_clear_config(KeychainDelete::Deleted).is_ok());
    assert!(notion_clear_config(KeychainDelete::NoEntry).is_ok());
    assert_eq!(
        notion_clear_config(KeychainDelete::Failed("denied".into())).unwrap_err(),
        "keychain delete: denied"
    );
}

#[test]
fn export_needs_token_and_parent() {
    assert_eq!(export_token(KeychainRead::Found("tok".into())).unwrap(), "tok");
    assert_eq!(export_token(KeychainRead::NoEntry).unwrap_err(), "Notion トークンが未設定です");
    assert_eq!(export_token(KeychainRead::Failed("x".into())).unwrap_err(), "keychain read: x");
    assert_eq!(export_parent_page(&cfg(Some("pid"))).unwrap(), "pid");
    assert_eq!(export_parent_page(&cfg(None)).unwrap_err(), "親ページ ID が未設定です");
}

#[test]
fn status_messages() {
    assert_eq!(map_status_error(401, "b"), "Notion トークンが無効です。設定を見直してください。");
    assert_eq!(
        map_status_error(404, "b"),
        "親ページが見つからないか、integration と共有されていません。Notion 側の Share でこの integration をページに追加してください。"
    );
    assert_eq!(
        map_status_error(429, "b"),
        "Notion API のレート制限に達しました。少し待って再試行してください。"
    );
    assert_eq!(
        map_status_error(500, "oops"),
        "Notion API エラー (HTTP 500 Internal Server Error): oops"
    );
    assert_eq!(
        map_status_error(599, ""),
        "Notion API エラー (HTTP 599 <unknown status code>): "
    );
    assert_eq!(
        status_error_message(400, "400 Bad Request", "{}"),
        "Notion API エラー (HTTP 400 Bad Request): {}"
    );
}

#[test]
fn response_fields() {
    let body = r#"{"object":"page","id":"abc-123","url":"https://www.notion.so/abc123"}"#;
    let r = notion_export_response(200, body).ok().unwrap();
    assert_eq!(r.url, "https://www.notion.so/abc123");
    assert_eq!(r.page_id, "abc-123");
    let r = notion_export_response(400, "bad");
    assert_eq!(r.err().unwrap(), "Notion API エラー (HTTP 400 Bad Request): bad");
    let r = notion_export_response(200, r#"{"id":"x"}"#);
    assert_eq!(r.err().unwrap(), r#"response missing url: {"id":"x"}"#);
    let r = notion_export_response(201, r#"{"url":"u","id":7}"#);
    assert_eq!(r.err().unwrap(), r#"response missing id: {"url":"u","id":7}"#);
    let r = notion_export_response(200, "not json");
    let e = r.err().unwrap();
    assert!(e.starts_with("parse Notion response: "));
    assert!(e.ends_with(" body=not json"));
}

#[test]
fn fields_to_result() {
    let r = export_result_from_fields("t", Ok(Some("u".into())), Ok(Some("i".into()))).ok().unwrap();
    assert_eq!((r.url.as_str(), r.page_id.as_str()), ("u", "i"));
    assert_eq!(
        export_result_from_fields("t", Err("boom".into()), Ok(None)).err().unwrap(),
        "parse Notion response: boom body=t"
    );
    assert_eq!(
        export_result_from_fields("t", Ok(None), Ok(None)).err().unwrap(),
        "response missing url: t"
    );
    assert_eq!(
        export_result_from_fields("t", Ok(Some("u".into())), Ok(None)).err().unwrap(),
        "response missing id: t"
    );
}

#[test]
fn titles() {
    assert_eq!(title_from_stamp("2024-03-05 09:07"), "会議議事録 2024-03-05 09:07");
    assert_eq!(title_from_stamp(""), "会議議事録 ");
}

fn shaped(t: &str) -> bool {
    let rest = match t.strip_prefix("会議議事録 ") {
        Some(r) => r,
        None => return false,
    };
    let b = rest.as_bytes();
    b.len() == 16
        && b.iter().enumerate().all(|(i, c)| match i {
            4 | 7 => *c == b'-',
            10 => *c == b' ',
            13 => *c == b':',
            _ => c.is_ascii_digit(),
        })
}

#[test]
fn built_titles_have_the_date_shape() {
    assert!(shaped(&build_title("2024-03-05T09:07:00+09:00")));
    assert!(shaped(&build_title("not a date")));
    assert!(shaped(&build_title("2024-03-05 09:07:00Z")));
    assert!(shaped(&build_title("1999-12-31T23:59:59.123-05:00")));
}

#[test]
fn built_title_is_the_start_in_some_time_zone() {
    let t = build_title("2024-03-05T12:07:00Z");
    let date = &t["会議議事録 ".len().."会議議事録 ".len() + 10];
    assert!(["2024-03-04", "2024-03-05", "2024-03-06"].contains(&date));
    assert!(t.ends_with(":07") || t.ends_with(":37") || t.ends_with(":52") || t.ends_with(":22"));
}

#[test]
fn export_page_holds_title_and_blocks() {
    let page = build_export_page("pid".to_string(), "2024-03-05T09:07:00Z", "## a\nb");
    assert_eq!(page.parent_page_id, "pid");
    assert!(shaped(&page.title));
    assert_eq!(page.blocks.len(), 2);
}
