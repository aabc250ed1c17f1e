use invoice_lookup::SimpleDate;

#[test]
fn test_csv_date_parse() {
    assert_eq!(SimpleDate::from_csv_date("2025/01/02"), Some(SimpleDate(2025, 1, 2)));
    assert_eq!(SimpleDate::from_csv_date("2023/10/01"), Some(SimpleDate(2023, 10, 1)));
}

#[test]
fn test_japanese_date_parse() {
    assert_eq!(SimpleDate::from_japanese_date("令和5年10月1日"), Some(SimpleDate(2023, 10, 1)));
    assert_eq!(SimpleDate::from_japanese_date("令和3年11月19日"), Some(SimpleDate(2021, 11, 19)));
    assert_eq!(SimpleDate::from_japanese_date("平成31年4月30日"), Some(SimpleDate(2019, 4, 30)));
}

#[test]
fn test_date_comparison() {
    let before = SimpleDate(2023, 9, 30);
    let on = SimpleDate(2023, 10, 1);
    let after = SimpleDate(2025, 1, 2);
    let reg = SimpleDate(2023, 10, 1);
    assert!(before < reg);
    assert!(on >= reg);
    assert!(after >= reg);
}

#[test]
fn csv_date_edge_cases() {
    assert_eq!(SimpleDate::from_csv_date("  2025/1/2 \t"), Some(SimpleDate(2025, 1, 2)));
    assert_eq!(SimpleDate::from_csv_date("+2025/01/02"), Some(SimpleDate(2025, 1, 2)));
    assert_eq!(SimpleDate::from_csv_date("2025/01"), None);
    assert_eq!(SimpleDate::from_csv_date("2025/01/02/03"), None);
    assert_eq!(SimpleDate::from_csv_date("2025/ 01/02"), None);
    assert_eq!(SimpleDate::from_csv_date("2025//02"), None);
    assert_eq!(SimpleDate::from_csv_date("-1/01/02"), None);
    assert_eq!(SimpleDate::from_csv_date("4294967295/1/1"), Some(SimpleDate(4294967295, 1, 1)));
    assert_eq!(SimpleDate::from_csv_date("4294967296/1/1"), None);
    assert_eq!(SimpleDate::from_csv_date("0004294967295/1/1"), Some(SimpleDate(4294967295, 1, 1)));
    assert_eq!(SimpleDate::from_csv_date(""), None);
}

#[test]
fn japanese_date_eras_and_spacing() {
    assert_eq!(SimpleDate::from_japanese_date("令和元年5月1日"), None);
    assert_eq!(SimpleDate::from_japanese_date("令和1年5月1日"), Some(SimpleDate(2019, 5, 1)));
    assert_eq!(SimpleDate::from_japanese_date("昭和64年1月7日"), Some(SimpleDate(1989, 1, 7)));
    assert_eq!(SimpleDate::from_japanese_date("大正15年12月25日"), Some(SimpleDate(1926, 12, 25)));
    assert_eq!(
        SimpleDate::from_japanese_date("  令和 5 年 10 月 1 日  "),
        Some(SimpleDate(2023, 10, 1))
    );
    assert_eq!(SimpleDate::from_japanese_date("明治5年1月1日"), None);
    assert_eq!(SimpleDate::from_japanese_date("令和5年10月"), None);
    assert_eq!(SimpleDate::from_japanese_date("令和5年10月1"), None);
    assert_eq!(SimpleDate::from_japanese_date("令和年10月1日"), None);
    assert_eq!(SimpleDate::from_japanese_date("2023年10月1日"), None);
    assert_eq!(SimpleDate::from_japanese_date("令和5年10月1日以降"), Some(SimpleDate(2023, 10, 1)));
}

#[test]
fn dates_order_by_year_then_month_then_day() {
    assert!(SimpleDate(2022, 12, 31) < SimpleDate(2023, 1, 1));
    assert!(SimpleDate(2023, 1, 31) < SimpleDate(2023, 2, 1));
    assert!(SimpleDate(2023, 2, 1) < SimpleDate(2023, 2, 2));
    assert!(SimpleDate(2023, 2, 2) <= SimpleDate(2023, 2, 2));
    assert!(!(SimpleDate(2023, 2, 2) < SimpleDate(2023, 2, 2)));
    assert!(SimpleDate(2024, 1, 1) > SimpleDate(2023, 12, 31));
    assert_eq!(SimpleDate(2023, 2, 2).partial_cmp(&SimpleDate(2023, 2, 2)), Some(std::cmp::Ordering::Equal));
}

#[test]
fn zero_padded_csv_dates_read_back() {
    for (y, m, d) in [(2025u32, 1u32, 2u32), (7, 3, 9), (u32::MAX, 12, 31), (0, 0, 0), (2023, 10, 1)] {
        let text = format!("{}/{:02}/{:02}", y, m, d);
        assert_eq!(SimpleDate::from_csv_date(&text), Some(SimpleDate(y, m, d)), "{}", text);
        let wide = format!("{:06}/{:04}/{:03}", y, m, d);
        assert_eq!(SimpleDate::from_csv_date(&wide), Some(SimpleDate(y, m, d)), "{}", wide);
    }
}

#[test]
fn japanese_date_parts_with_spacing_and_tail() {
    assert_eq!(
        SimpleDate::from_japanese_date(" 令和 5 年 10 月 1 日 (月)"),
        Some(SimpleDate(2023, 10, 1))
    );
    assert_eq!(SimpleDate::from_japanese_date("平成31年4月30日以降"), Some(SimpleDate(2019, 4, 30)));
    assert_eq!(SimpleDate::from_japanese_date("令和五年10月1日"), None);
}
