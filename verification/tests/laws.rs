use invoice_lookup::text::split_lines;
use invoice_lookup::{
    annotate_sheet, collect_sheet_numbers, HistoryPlan, InvoiceInfo, InvoiceLookupError,
    InvoiceRegistration, SimpleDate,
};

#[test]
fn csv_dates_read_back() {
    for (y, m, d) in [(2025u32, 1u32, 2u32), (0, 0, 0), (u32::MAX, 12, 31), (1999, 10, 100)] {
        let text = format!("{}/{}/{}", y, m, d);
        assert_eq!(SimpleDate::from_csv_date(&text), Some(SimpleDate(y, m, d)));
    }
}

#[test]
fn japanese_dates_read_back() {
    for (era, offset) in [("令和", 2018u32), ("平成", 1988), ("昭和", 1925), ("大正", 1911)] {
        for (y, m, d) in [(1u32, 1u32, 1u32), (5, 10, 1), (64, 12, 31), (0, 0, 0)] {
            let text = format!("{}{}年{}月{}日", era, y, m, d);
            assert_eq!(SimpleDate::from_japanese_date(&text), Some(SimpleDate(offset + y, m, d)));
        }
    }
}

#[test]
fn japanese_date_year_range() {
    assert!(SimpleDate::japanese_date_in_range("令和5年10月1日"));
    assert!(SimpleDate::japanese_date_in_range("no date"));
    assert!(SimpleDate::japanese_date_in_range("令和4294965277年1月1日"));
    assert!(!SimpleDate::japanese_date_in_range("令和4294965278年1月1日"));
    assert_eq!(
        SimpleDate::from_japanese_date("令和4294965277年1月1日"),
        Some(SimpleDate(u32::MAX, 1, 1))
    );
}

#[test]
fn checked_sheet_keeps_every_line() {
    let content = "h1,h2\r\nr1,a,b,c,T8013201004026\nr2\n\nr4,a,b,c,なし\n";
    let plan = HistoryPlan::from_csv(content);
    let results = vec![Ok(InvoiceRegistration {
        t_number: "T8013201004026".to_string(),
        name: String::new(),
        registration_date: String::new(),
        address: String::new(),
        last_updated: String::new(),
        registered: true,
    })];
    let out = plan.resolve(&results).to_csv();
    let before: Vec<&str> = content.lines().collect();
    let after: Vec<&str> = out.lines().collect();
    assert_eq!(after.len(), before.len());
    assert_eq!(after[0], "h1,h2,登録状況");
    assert_eq!(after[1], "r1,a,b,c,T8013201004026,登録済");
    assert_eq!(after[2], "r2,番号なし");
    assert_eq!(after[3], ",番号なし");
    assert_eq!(after[4], "r4,a,b,c,なし,番号なし");
}

#[test]
fn updater_looks_up_what_the_check_looks_up() {
    let content = "h\na,b,c,d,8013201004026\na,b,c,d,T0000000000000\na,b,c,d,T8013201004026\na,b,c,d,\n";
    let plan = HistoryPlan::from_csv(content);
    let sheet = collect_sheet_numbers(&split_lines(content));
    assert_eq!(plan.unique_tnums, sheet);
}

#[test]
fn updater_and_check_give_the_same_labels() {
    let content = "h\na,b,c,d,8013201004026\na,b,c,d,T0000000000000\na,b,c,d,なし\na,b\na,b,c,d,T1111111111111";
    let plan = HistoryPlan::from_csv(content);
    let lines = split_lines(content);
    let sheet = collect_sheet_numbers(&lines);
    let info = |registered| InvoiceInfo {
        name: String::new(),
        registration_date: String::new(),
        address: String::new(),
        last_updated: String::new(),
        registered,
    };
    let reg = |t: &str, registered| InvoiceRegistration {
        t_number: t.to_string(),
        name: String::new(),
        registration_date: String::new(),
        address: String::new(),
        last_updated: String::new(),
        registered,
    };
    let updater = annotate_sheet(&lines, &sheet, &vec![Ok(info(true)), Ok(info(false)), Err(InvoiceLookupError::ParseError)]);
    let check = plan
        .resolve(&vec![Ok(reg(&sheet[0], true)), Ok(reg(&sheet[1], false)), Err("x".to_string())])
        .to_csv();
    let updater_lines: Vec<&str> = updater.lines().collect();
    let check_lines: Vec<&str> = check.lines().collect();
    assert_eq!(updater_lines, check_lines);
}
