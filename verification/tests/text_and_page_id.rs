use memolo::page_id::normalize_page_id;
use memolo::text::{chars_of, push_decimal, trimmed};

#[test]
fn decimal_rendering() {
    let mut s = String::from("n=");
    push_decimal(&mut s, 0);
    assert_eq!(s, "n=0");
    let mut s = String::new();
    push_decimal(&mut s, 1234567890);
    assert_eq!(s, "1234567890");
}

#[test]
fn trimming_uses_unicode_whitespace() {
    assert_eq!(trimmed("  abc \t\n"), "abc");
    assert_eq!(trimmed("\u{3000}議事録\u{3000}"), "議事録");
    assert_eq!(trimmed("   "), "");
    assert_eq!(trimmed("a b"), "a b");
}

#[test]
fn chars_of_keeps_every_character() {
    assert_eq!(chars_of("aあ😀"), vec!['a', 'あ', '😀']);
}

#[test]
fn page_id_from_url() {
    let url = "https://www.notion.so/myspace/Meeting-Notes-0123456789abcdef0123456789ABCDEF";
    assert_eq!(
        normalize_page_id(url).unwrap(),
        "01234567-89ab-cdef-0123-456789ABCDEF"
    );
}

#[test]
fn page_id_takes_last_32_digits() {
    let raw = "ffff0123456789abcdef0123456789abcdef";
    assert_eq!(
        normalize_page_id(raw).unwrap(),
        "01234567-89ab-cdef-0123-456789abcdef"
    );
}

#[test]
fn page_id_already_dashed_is_unchanged() {
    let id = "01234567-89ab-cdef-0123-456789abcdef";
    assert_eq!(normalize_page_id(id).unwrap(), id);
    let twice = normalize_page_id(&normalize_page_id("x0123456789abcdef0123456789abcdefx").unwrap()).unwrap();
    assert_eq!(twice, "01234567-89ab-cdef-0123-456789abcdef");
}

#[test]
fn page_id_too_short() {
    assert_eq!(
        normalize_page_id("https://notion.so/abc").unwrap_err(),
        "ページ ID または URL に 32 文字の hex が含まれていません"
    );
    assert!(normalize_page_id("").is_err());
    assert!(normalize_page_id("0123456789abcdef0123456789abcde").is_err());
}

#[test]
fn page_id_ignores_query_and_fragment() {
    let url = "https://www.notion.so/Page-0123456789abcdef0123456789abcdef?pvs=4";
    assert_eq!(normalize_page_id(url).unwrap(), "01234567-89ab-cdef-0123-456789abcdef");
    let url = "https://www.notion.so/Page-0123456789abcdef0123456789abcdef#fedcba9876543210fedcba9876543210";
    assert_eq!(normalize_page_id(url).unwrap(), "01234567-89ab-cdef-0123-456789abcdef");
    let peek = "https://www.notion.so/w/x?p=0123456789abcdef0123456789abcdef&pm=s";
    assert_eq!(normalize_page_id(peek).unwrap(), "01234567-89ab-cdef-0123-456789abcdef");
    assert_eq!(
        normalize_page_id("?0123456789abcdef0123456789abcdef").unwrap(),
        "01234567-89ab-cdef-0123-456789abcdef"
    );
    assert!(normalize_page_id("https://notion.so/x?p=0123").is_err());
}
