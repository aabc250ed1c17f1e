use invoice_lookup::{
    detail_url, invoice_from_items, normalize_tnum, parse_invoice_html, parse_t_number,
    InvoiceLookupError,
};

#[test]
fn test_parse_t_number_valid() {
    assert_eq!(parse_t_number("T8013201004026").unwrap(), "8013201004026");
}

#[test]
fn test_parse_t_number_without_prefix() {
    assert_eq!(parse_t_number("8013201004026").unwrap(), "8013201004026");
}

#[test]
fn test_parse_t_number_invalid_length() {
    assert!(parse_t_number("T123").is_err());
}

#[test]
fn test_parse_t_number_invalid_chars() {
    assert!(parse_t_number("T801320100402A").is_err());
}

#[test]
fn test_parse_unregistered_html() {
    let html = r#"<html><body><li>検索対象の登録番号は存在しません。内容をお確かめのうえ、入力してください。</li></body></html>"#;
    let info = parse_invoice_html(html).unwrap();
    assert!(!info.registered);
    assert!(info.name.is_empty());
}

#[test]
fn test_parse_registered_html() {
    let html = r#"
    <html><body>
        <h3 class="itemlabel">登録番号</h3>
        <p class="itemdata">T8013201004026</p>
        <h3 class="nmTsuushou_label itemlabel">氏名又は名称</h3>
        <p class="itemdata">株式会社東急ストア</p>
        <h3 class="itemlabel">登録年月日</h3>
        <p class="itemdata">令和5年10月1日</p>
        <h3 class="hontenaddr_label itemlabel">本店又は主たる事務所の所在地</h3>
        <p class="itemdata">東京都目黒区上目黒１丁目２１番１２号</p>
        <h3 class="itemlabel">最終更新年月日</h3>
        <p class="itemdata latestdate">令和3年11月19日</p>
    </body></html>"#;
    let info = parse_invoice_html(html).unwrap();
    assert!(info.registered);
    assert_eq!(info.name, "株式会社東急ストア");
    assert_eq!(info.registration_date, "令和5年10月1日");
    assert_eq!(info.address, "東京都目黒区上目黒１丁目２１番１２号");
    assert_eq!(info.last_updated, "令和3年11月19日");
}

#[test]
fn parse_t_number_error_message_names_the_input() {
    match parse_t_number("T123") {
        Err(InvoiceLookupError::InvalidFormat(m)) => {
            assert_eq!(m, "Expected T + 13 digits, got: T123")
        }
        _ => panic!("expected an invalid-format error"),
    }
}

#[test]
fn parse_t_number_edge_cases() {
    assert!(parse_t_number("").is_err());
    assert!(parse_t_number("T").is_err());
    assert!(parse_t_number("TT801320100402").is_err());
    assert!(parse_t_number("80132010040261").is_err());
    assert!(parse_t_number(" T8013201004026").is_err());
    assert!(parse_t_number("T８013201004026").is_err());
    assert_eq!(parse_t_number("T0000000000000").unwrap(), "0000000000000");
}

#[test]
fn t_prefix_is_optional_law_example() {
    let d = "1234567890123";
    assert_eq!(parse_t_number(d).unwrap(), parse_t_number(&format!("T{}", d)).unwrap());
}

#[test]
fn error_messages() {
    assert_eq!(
        InvoiceLookupError::InvalidFormat("x".to_string()).message(),
        "Invalid T-number format: x"
    );
    assert_eq!(
        InvoiceLookupError::HttpError("timeout".to_string()).message(),
        "HTTP request failed: timeout"
    );
    assert_eq!(InvoiceLookupError::ParseError.message(), "Failed to parse HTML response");
}

#[test]
fn detail_url_for_digits() {
    assert_eq!(
        detail_url("8013201004026"),
        "https://www.invoice-kohyo.nta.go.jp/regno-search/detail?selRegNo=8013201004026"
    );
}

#[test]
fn normalize_tnum_cases() {
    assert_eq!(normalize_tnum("8013201004026"), Some("T8013201004026".to_string()));
    assert_eq!(normalize_tnum("T8013201004026"), Some("T8013201004026".to_string()));
    assert_eq!(normalize_tnum(""), None);
    assert_eq!(normalize_tnum("なし"), None);
    assert_eq!(normalize_tnum("T123"), None);
    assert_eq!(normalize_tnum("abc"), None);
}

#[test]
fn normalize_is_idempotent_example() {
    let t = normalize_tnum("8013201004026").unwrap();
    assert_eq!(normalize_tnum(&t), Some(t.clone()));
}

#[test]
fn items_pair_in_order_and_last_label_wins() {
    let labels = vec![
        " 氏名又は名称 ".to_string(),
        "登録年月日".to_string(),
        "氏名又は名称".to_string(),
        "最終更新年月日".to_string(),
    ];
    let values = vec![
        "A社".to_string(),
        "  令和5年10月1日\n".to_string(),
        "B社".to_string(),
    ];
    let info = invoice_from_items(&labels, &values);
    assert!(info.registered);
    assert_eq!(info.name, "B社");
    assert_eq!(info.registration_date, "令和5年10月1日");
    assert_eq!(info.address, "");
    assert_eq!(info.last_updated, "");
}

#[test]
fn page_without_items_is_registered_with_empty_fields() {
    let info = parse_invoice_html("<html><body><p>nothing</p></body></html>").unwrap();
    assert!(info.registered);
    assert_eq!(info.name, "");
    assert_eq!(info.address, "");
}

#[test]
fn labels_are_read_from_nested_text() {
    let html = r#"<h3 class="itemlabel"><span>氏名又は</span>名称</h3><p class="itemdata"> <b>X</b>社 </p>"#;
    let info = parse_invoice_html(html).unwrap();
    assert_eq!(info.name, "X社");
}
