//! Notion settings, and the page that a set of minutes becomes.
use vstd::prelude::*;

use crate::markdown::{block_is, markdown_blocks, markdown_to_blocks, Block};
use crate::page_id::{normalize_page_id, page_id_of, missing_hex_message};
use crate::text::{decimal, trim, trimmed};
use crate::title::{build_title, is_local_title, is_some_local_title, rfc3339_accepted, rfc3339_seconds};

verus! {

/// The settings file: the parent page under which minutes are filed.
pub struct ConfigJson {
    pub notion_parent_page_id: Option<String>,
}

impl Default for ConfigJson {
    fn default() -> (res: Self)
        ensures
            res.notion_parent_page_id is None,
    {
        ConfigJson { notion_parent_page_id: None }
    }
}

/// What the Notion settings screen shows.
pub struct NotionConfigStatus {
    pub configured: bool,
    pub parent_page_id: Option<String>,
}

/// Where an exported page can be found.
pub struct NotionExportResult {
    pub url: String,
    pub page_id: String,
}

/// The outcome of reading the Notion token from the keychain.
pub enum KeychainRead {
    /// The token that was stored.
    Found(String),
    /// No token is stored.
    NoEntry,
    /// The keychain failed; the text describes why.
    Failed(String),
}

/// The outcome of deleting the Notion token from the keychain.
pub enum KeychainDelete {
    Deleted,
    /// There was no token to delete.
    NoEntry,
    /// The keychain failed; the text describes why.
    Failed(String),
}

/// Settings that passed validation, ready to be stored.
pub struct NotionSettings {
    pub token: String,
    pub parent_page_id: String,
}

/// A page to create under the parent page.
pub struct NotionPage {
    pub parent_page_id: String,
    pub title: String,
    pub blocks: Vec<Block>,
}

/// The characters of an optional string.
pub open spec fn opt_view(o: Option<String>) -> Option<Seq<char>> {
    match o {
        Some(s) => Some(s@),
        None => None,
    }
}

/// The status shown for the stored settings: configured when a token is
/// stored and a parent page is set; a keychain failure is an error.
pub fn notion_get_config(cfg: ConfigJson, token: KeychainRead) -> (res: Result<
    NotionConfigStatus,
    String,
>)
    ensures
        match token {
            KeychainRead::Failed(d) => res matches Err(e) && e@ == "keychain read: "@ + d@,
            KeychainRead::Found(_) => res matches Ok(st) && st.configured == (
            cfg.notion_parent_page_id is Some) && opt_view(st.parent_page_id) == opt_view(
                cfg.notion_parent_page_id,
            ),
            KeychainRead::NoEntry => res matches Ok(st) && !st.configured && opt_view(
                st.parent_page_id,
            ) == opt_view(cfg.notion_parent_page_id),
        },
{
    let token_exists = match token {
        KeychainRead::Found(_) => true,
        KeychainRead::NoEntry => false,
        KeychainRead::Failed(d) => {
            let mut e = "keychain read: ".to_owned();
            e.append(d.as_str());
            return Err(e);
        },
    };
    let configured = token_exists && cfg.notion_parent_page_id.is_some();
    Ok(NotionConfigStatus { configured, parent_page_id: cfg.notion_parent_page_id })
}

/// Validates new settings: the token without surrounding whitespace must not
/// be empty, and the parent page must hold a page id.
pub fn notion_set_config(token: &str, parent_page: &str) -> (res: Result<NotionSettings, String>)
    ensures
        trim(token@).len() == 0 ==> (res matches Err(e) && e@ == "トークンが空です"@),
        trim(token@).len() > 0 && page_id_of(trim(parent_page@)) is None ==> (res matches Err(e)
            && e@ == missing_hex_message()),
        trim(token@).len() > 0 && page_id_of(trim(parent_page@)) is Some ==> (res matches Ok(s)
            && s.token@ == trim(token@) && s.parent_page_id@ == page_id_of(
            trim(parent_page@),
        ).unwrap()),
{
    let token = trimmed(token);
    if token.as_str().is_empty() {
        return Err("トークンが空です".to_owned());
    }
    let page = trimmed(parent_page);
    let parent_page_id = normalize_page_id(page.as_str())?;
    Ok(NotionSettings { token, parent_page_id })
}

/// Whether deleting the token went as wanted: a missing token is no error.
pub fn notion_clear_config(deleted: KeychainDelete) -> (res: Result<(), String>)
    ensures
        match deleted {
            KeychainDelete::Failed(d) => res matches Err(e) && e@ == "keychain delete: "@ + d@,
            _ => res is Ok,
        },
{
    match deleted {
        KeychainDelete::Failed(d) => {
            let mut e = "keychain delete: ".to_owned();
            e.append(d.as_str());
            Err(e)
        },
        _ => Ok(()),
    }
}

/// The token to export with; a missing or unreadable token is an error.
pub fn export_token(token: KeychainRead) -> (res: Result<String, String>)
    ensures
        match token {
            KeychainRead::Found(t) => res matches Ok(r) && r@ == t@,
            KeychainRead::NoEntry => res matches Err(e) && e@ == "Notion トークンが未設定です"@,
            KeychainRead::Failed(d) => res matches Err(e) && e@ == "keychain read: "@ + d@,
        },
{
    match token {
        KeychainRead::Found(t) => Ok(t),
        KeychainRead::NoEntry => Err("Notion トークンが未設定です".to_owned()),
        KeychainRead::Failed(d) => {
            let mut e = "keychain read: ".to_owned();
            e.append(d.as_str());
            Err(e)
        },
    }
}

/// The parent page to export under; an unset one is an error.
pub fn export_parent_page(cfg: &ConfigJson) -> (res: Result<String, String>)
    ensures
        match cfg.notion_parent_page_id {
            Some(p) => res matches Ok(r) && r@ == p@,
            None => res matches Err(e) && e@ == "親ページ ID が未設定です"@,
        },
{
    match &cfg.notion_parent_page_id {
        Some(p) => Ok(p.clone()),
        None => Err("親ページ ID が未設定です".to_owned()),
    }
}

/// The page that minutes which started at `started_at_iso` become: titled
/// with the start in local time (the current time where the text does not
/// parse), holding one block per non-blank Markdown line.
pub fn build_export_page(parent_page_id: String, started_at_iso: &str, markdown: &str) -> (res:
    NotionPage)
    ensures
        res.parent_page_id@ == parent_page_id@,
        rfc3339_accepted(started_at_iso@) ==> is_local_title(
            res.title@,
            rfc3339_seconds(started_at_iso@),
        ),
        !rfc3339_accepted(started_at_iso@) ==> is_some_local_title(res.title@),
        res.blocks.len() == markdown_blocks(markdown@).len(),
        forall|i: int|
            0 <= i < res.blocks.len() ==> block_is(
                #[trigger] res.blocks[i],
                markdown_blocks(markdown@)[i].0,
                markdown_blocks(markdown@)[i].1,
            ),
{
    let title = build_title(started_at_iso);
    let blocks = markdown_to_blocks(markdown);
    NotionPage { parent_page_id, title, blocks }
}

/// The text that `reqwest::StatusCode` shows for the status `code`.
pub uninterp spec fn status_text(code: u16) -> Seq<char>;

/// Calls `reqwest::StatusCode::from_u16` and formats the code with
/// `Display`. Claimed: the text is the one named `status_text`, and it begins
/// with the three digits of the code and a space (the reason phrase that
/// follows is a table of `http` and is not stated).
#[verifier::external_body]
fn status_display(code: u16) -> (res: String)
    requires
        100 <= code <= 999,
    ensures
        res@ == status_text(code),
        res@.len() >= 4,
        res@.subrange(0, 4) == decimal(code as nat).push(' '),
{
    match reqwest::StatusCode::from_u16(code) {
        Ok(s) => s.to_string(),
        Err(_) => String::new(),
    }
}

/// The message for a failed Notion request with status `status`, where
/// `shown` is how the status displays and `body` is the response body.
pub open spec fn status_error_text(status: u16, shown: Seq<char>, body: Seq<char>) -> Seq<char> {
    if status == 401 {
        "Notion トークンが無効です。設定を見直してください。"@
    } else if status == 404 {
        "親ページが見つからないか、integration と共有されていません。Notion 側の Share でこの integration をページに追加してください。"@
    } else if status == 429 {
        "Notion API のレート制限に達しました。少し待って再試行してください。"@
    } else {
        "Notion API エラー (HTTP "@ + shown + "): "@ + body
    }
}

/// The message for a failed Notion request, given how its status displays.
pub fn status_error_message(status: u16, shown: &str, body: &str) -> (res: String)
    ensures
        res@ == status_error_text(status, shown@, body@),
{
    if status == 401 {
        "Notion トークンが無効です。設定を見直してください。".to_owned()
    } else if status == 404 {
        "親ページが見つからないか、integration と共有されていません。Notion 側の Share でこの integration をページに追加してください。".to_owned()
    } else if status == 429 {
        "Notion API のレート制限に達しました。少し待って再試行してください。".to_owned()
    } else {
        let mut e = "Notion API エラー (HTTP ".to_owned();
        e.append(shown);
        e.append("): ");
        e.append(body);
        e
    }
}

/// The message for a failed Notion request with HTTP status `status`.
pub fn map_status_error(status: u16, body: &str) -> (res: String)
    requires
        100 <= status <= 999,
    ensures
        res@ == status_error_text(status, status_text(status), body@),
{
    if status == 401 || status == 404 || status == 429 {
        status_error_message(status, "", body)
    } else {
        let shown = status_display(status);
        status_error_message(status, shown.as_str(), body)
    }
}

/// What `serde_json` finds in the text `text` at the top-level key `key`:
/// the parse error's text, or the string stored there (none where the text is
/// not an object, the key is absent, or its value is not a string).
pub uninterp spec fn json_string_field(text: Seq<char>, key: Seq<char>) -> Result<
    Option<Seq<char>>,
    Seq<char>,
>;

/// The characters of a looked-up field.
pub open spec fn field_view(r: Result<Option<String>, String>) -> Result<
    Option<Seq<char>>,
    Seq<char>,
> {
    match r {
        Ok(o) => Ok(opt_view(o)),
        Err(e) => Err(e@),
    }
}

/// Calls `serde_json::from_str::<serde_json::Value>` on `text`, then
/// `Value::get(key)` and `Value::as_str`. Claimed: the result is the one
/// named `json_string_field`, a function of the two texts.
#[verifier::external_body]
fn read_json_string_field(text: &str, key: &str) -> (res: Result<Option<String>, String>)
    ensures
        field_view(res) == json_string_field(text@, key@),
{
    match serde_json::from_str::<serde_json::Value>(text) {
        Ok(v) => Ok(v.get(key).and_then(|x| x.as_str()).map(|x| x.to_owned())),
        Err(e) => Err(e.to_string()),
    }
}

/// What a successful response body yields, given what was found at its
/// `url` and `id` keys: the page's address and id, or a message.
pub open spec fn export_fields_outcome(
    text: Seq<char>,
    url: Result<Option<Seq<char>>, Seq<char>>,
    id: Result<Option<Seq<char>>, Seq<char>>,
) -> Result<(Seq<char>, Seq<char>), Seq<char>> {
    match url {
        Err(e) => Err("parse Notion response: "@ + e + " body="@ + text),
        Ok(None) => Err("response missing url: "@ + text),
        Ok(Some(u)) => match id {
            Err(e) => Err("parse Notion response: "@ + e + " body="@ + text),
            Ok(None) => Err("response missing id: "@ + text),
            Ok(Some(i)) => Ok((u, i)),
        },
    }
}

/// The characters of an export result.
pub open spec fn export_view(r: Result<NotionExportResult, String>) -> Result<
    (Seq<char>, Seq<char>),
    Seq<char>,
> {
    match r {
        Ok(x) => Ok((x.url@, x.page_id@)),
        Err(e) => Err(e@),
    }
}

fn parse_failure(e: &str, text: &str) -> (res: String)
    ensures
        res@ == "parse Notion response: "@ + e@ + " body="@ + text@,
{
    let mut m = "parse Notion response: ".to_owned();
    m.append(e);
    m.append(" body=");
    m.append(text);
    m
}

/// The page's address and id from what was found at the `url` and `id` keys
/// of a successful response body `text`.
pub fn export_result_from_fields(
    text: &str,
    url: Result<Option<String>, String>,
    id: Result<Option<String>, String>,
) -> (res: Result<NotionExportResult, String>)
    ensures
        export_view(res) == export_fields_outcome(text@, field_view(url), field_view(id)),
{
    let url = match url {
        Err(e) => return Err(parse_failure(e.as_str(), text)),
        Ok(None) => {
            let mut m = "response missing url: ".to_owned();
            m.append(text);
            return Err(m);
        },
        Ok(Some(u)) => u,
    };
    let page_id = match id {
        Err(e) => return Err(parse_failure(e.as_str(), text)),
        Ok(None) => {
            let mut m = "response missing id: ".to_owned();
            m.append(text);
            return Err(m);
        },
        Ok(Some(i)) => i,
    };
    Ok(NotionExportResult { url, page_id })
}

/// What Notion's answer to a page creation means: an error message for a
/// status outside 200..=299, otherwise the new page's address and id read
/// from the JSON body.
pub fn notion_export_response(status: u16, text: &str) -> (res: Result<NotionExportResult, String>)
    requires
        100 <= status <= 999,
    ensures
        !(200 <= status <= 299) ==> export_view(res) == Err::<(Seq<char>, Seq<char>), Seq<char>>(
            status_error_text(status, status_text(status), text@),
        ),
        200 <= status <= 299 ==> export_view(res) == export_fields_outcome(
            text@,
            json_string_field(text@, "url"@),
            json_string_field(text@, "id"@),
        ),
{
    if !(200 <= status && status <= 299) {
        return Err(map_status_error(status, text));
    }
    let url = read_json_string_field(text, "url");
    let id = read_json_string_field(text, "id");
    export_result_from_fields(text, url, id)
}

} // verus!
