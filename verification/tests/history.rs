use invoice_lookup::{
    parse_csv_line, parse_number_list, registered_label, CheckHistoryResult, HistoryPlan,
    HistoryRow, InvoiceInfo, InvoiceRegistration, RegistrationStatus,
};

fn reg(t: &str, registered: bool) -> InvoiceRegistration {
    InvoiceRegistration {
        t_number: t.to_string(),
        name: String::new(),
        registration_date: String::new(),
        address: String::new(),
        last_updated: String::new(),
        registered,
    }
}

const SHEET: &str = "date,shop,amount,memo,number\n\
2025/01/02,A,100,,T8013201004026\n\
2025/01/03,\"B, Inc\",200,,8013201004026\n\
2025/01/04,C,300,,なし\n\
2025/01/05,D,400,,T0000000000000\n\
2025/01/06,E,500\n\
2025/01/07,F,600,,1111111111111\n";

#[test]
fn csv_line_quotes_and_commas() {
    assert_eq!(parse_csv_line("a,\"b,c\",d"), vec!["a", "b,c", "d"]);
    assert_eq!(parse_csv_line(""), vec![""]);
    assert_eq!(parse_csv_line(",,"), vec!["", "", ""]);
    assert_eq!(parse_csv_line("x\"y\"z"), vec!["xyz"]);
    assert_eq!(parse_csv_line("a,b,c"), "a,b,c".split(',').collect::<Vec<_>>());
}

#[test]
fn plan_collects_each_number_once() {
    let plan = HistoryPlan::from_csv(SHEET);
    assert_eq!(plan.header, "date,shop,amount,memo,number");
    assert_eq!(plan.data_lines.len(), 6);
    assert_eq!(
        plan.unique_tnums,
        vec!["T8013201004026", "T0000000000000", "T1111111111111"]
    );
    assert_eq!(plan.row_tnums[0].as_deref(), Some("T8013201004026"));
    assert_eq!(plan.row_tnums[1].as_deref(), Some("T8013201004026"));
    assert_eq!(plan.row_tnums[2], None);
    assert_eq!(plan.row_tnums[4], None);
}

#[test]
fn plan_of_empty_content() {
    let plan = HistoryPlan::from_csv("");
    assert_eq!(plan.header, "");
    assert!(plan.data_lines.is_empty());
    assert!(plan.unique_tnums.is_empty());
    let result = plan.resolve(&vec![]);
    assert!(result.rows.is_empty());
    assert_eq!(result.to_csv(), ",登録状況\n");
}

#[test]
fn resolve_statuses_and_csv() {
    let plan = HistoryPlan::from_csv(SHEET);
    let results = vec![
        Ok(reg("T8013201004026", true)),
        Ok(reg("T0000000000000", false)),
        Err("timeout".to_string()),
    ];
    let result = plan.resolve(&results);
    let labels: Vec<&str> = result.rows.iter().map(|r| r.status.label()).collect();
    assert_eq!(labels, vec!["登録済", "登録済", "番号なし", "未登録", "番号なし", "確認不可"]);
    assert_eq!(result.rows[0].line_number, 2);
    assert_eq!(result.rows[5].line_number, 7);
    match &result.rows[5].status {
        RegistrationStatus::Error(m) => assert_eq!(m, "lookup failed"),
        _ => panic!("expected an error status"),
    }
    let csv = result.to_csv();
    assert_eq!(
        csv,
        "date,shop,amount,memo,number,登録状況\n\
2025/01/02,A,100,,T8013201004026,登録済\n\
2025/01/03,\"B, Inc\",200,,8013201004026,登録済\n\
2025/01/04,C,300,,なし,番号なし\n\
2025/01/05,D,400,,T0000000000000,未登録\n\
2025/01/06,E,500,番号なし\n\
2025/01/07,F,600,,1111111111111,確認不可\n"
    );
    let s = result.summary();
    assert_eq!(s.total, 6);
    assert_eq!(s.registered, 2);
    assert_eq!(s.unregistered, 1);
    assert_eq!(s.no_number, 2);
    assert_eq!(s.errors, 1);
    assert_eq!(s.before_registration, 0);
    assert_eq!(s.unregistered_numbers, vec!["T0000000000000"]);
    assert_eq!(s.total, s.registered + s.before_registration + s.unregistered + s.no_number + s.errors);
}

#[test]
fn missing_results_mean_lookup_failed() {
    let plan = HistoryPlan::from_csv("h\nx,x,x,x,T8013201004026\r\n");
    let result = plan.resolve(&vec![]);
    assert_eq!(result.rows.len(), 1);
    assert_eq!(result.rows[0].raw_line, "x,x,x,x,T8013201004026");
    assert!(matches!(result.rows[0].status, RegistrationStatus::Error(_)));
}

#[test]
fn summary_counts_before_registration() {
    let rows = vec![
        HistoryRow {
            line_number: 2,
            raw_line: "a".to_string(),
            t_number: Some("T1".to_string()),
            status: RegistrationStatus::BeforeRegistration,
        },
        HistoryRow {
            line_number: 3,
            raw_line: "b".to_string(),
            t_number: None,
            status: RegistrationStatus::Unregistered,
        },
    ];
    let result = CheckHistoryResult { header: "h".to_string(), rows };
    let s = result.summary();
    assert_eq!(s.total, 2);
    assert_eq!(s.before_registration, 1);
    assert_eq!(s.before_registration_entries, vec!["T1"]);
    assert_eq!(s.unregistered_numbers, vec![""]);
    assert_eq!(result.to_csv(), "h,登録状況\na,登録前\nb,未登録\n");
}

#[test]
fn status_labels() {
    assert_eq!(RegistrationStatus::Registered.label(), "登録済");
    assert_eq!(RegistrationStatus::BeforeRegistration.label(), "登録前");
    assert_eq!(RegistrationStatus::Unregistered.label(), "未登録");
    assert_eq!(RegistrationStatus::NoNumber.label(), "番号なし");
    assert_eq!(RegistrationStatus::Error("x".to_string()).label(), "確認不可");
    assert_eq!(registered_label(true), "登録済");
    assert_eq!(registered_label(false), "未登録");
}

#[test]
fn registration_from_lookup() {
    let info = InvoiceInfo {
        name: "N".to_string(),
        registration_date: "D".to_string(),
        address: "A".to_string(),
        last_updated: "U".to_string(),
        registered: true,
    };
    let r = InvoiceRegistration::from_lookup("T8013201004026", info);
    assert_eq!(r.t_number, "T8013201004026");
    assert_eq!(r.name, "N");
    assert_eq!(r.registration_date, "D");
    assert_eq!(r.address, "A");
    assert_eq!(r.last_updated, "U");
    assert!(r.registered);
}

#[test]
fn number_list_skips_blank_lines() {
    assert_eq!(
        parse_number_list("T8013201004026\n\n  8013201004026 \r\n\t\n"),
        vec!["T8013201004026", "8013201004026"]
    );
    assert!(parse_number_list("").is_empty());
}

fn reg_dated(t: &str, registered: bool, date: &str) -> InvoiceRegistration {
    InvoiceRegistration {
        registration_date: date.to_string(),
        ..reg(t, registered)
    }
}

const DATED_SHEET: &str = "日付,店,金額,摘要,番号\n\
2023/09/30,A,100,,T8013201004026\n\
2023/10/01,B,200,,T8013201004026\n\
2025/01/02,C,300,,T8013201004026\n\
不明,D,400,,T8013201004026\n\
2023/09/30,E,500,,T0000000000000\n";

#[test]
fn use_before_registration_date_is_before_registration() {
    let plan = HistoryPlan::from_csv(DATED_SHEET);
    let results = vec![
        Ok(reg_dated("T8013201004026", true, "令和5年10月1日")),
        Ok(reg_dated("T0000000000000", false, "令和5年10月1日")),
    ];
    let result = plan.resolve(&results);
    let labels: Vec<&str> = result.rows.iter().map(|r| r.status.label()).collect();
    assert_eq!(labels, vec!["登録前", "登録済", "登録済", "登録済", "未登録"]);
    let summary = result.summary();
    assert_eq!(summary.total, 5);
    assert_eq!(summary.registered, 3);
    assert_eq!(summary.before_registration, 1);
    assert_eq!(summary.before_registration_entries, vec!["T8013201004026"]);
    assert_eq!(summary.unregistered, 1);
    assert_eq!(summary.unregistered_numbers, vec!["T0000000000000"]);
    assert!(result.to_csv().contains("2023/09/30,A,100,,T8013201004026,登録前\n"));
}

#[test]
fn unreadable_registration_date_counts_as_registered() {
    let plan = HistoryPlan::from_csv(DATED_SHEET);
    for date in ["", "2023-10-01", "令和5年10月", "明治5年1月1日"] {
        let result = plan.resolve(&vec![Ok(reg_dated("T8013201004026", true, date))]);
        assert!(matches!(result.rows[0].status, RegistrationStatus::Registered), "{}", date);
        assert_eq!(result.summary().before_registration, 0);
    }
}

#[test]
fn earlier_era_registration_date_compares_by_gregorian_year() {
    let plan = HistoryPlan::from_csv("h\n2019/04/29,a,b,c,T8013201004026\n2019/05/01,a,b,c,T8013201004026\n");
    let result = plan.resolve(&vec![Ok(reg_dated("T8013201004026", true, "平成31年4月30日"))]);
    assert!(matches!(result.rows[0].status, RegistrationStatus::BeforeRegistration));
    assert!(matches!(result.rows[1].status, RegistrationStatus::Registered));
}

fn separating_commas(line: &str) -> usize {
    let mut quotes = 0;
    let mut commas = 0;
    for ch in line.chars() {
        if ch == '"' {
            quotes += 1;
        } else if ch == ',' && quotes % 2 == 0 {
            commas += 1;
        }
    }
    commas
}

#[test]
fn csv_fields_rejoin_and_count() {
    for line in ["a,\"b,c\",d", "", "\"\"", ",,", "x\"y,z\"w,q", "\"a,b", "a\"\"b,\"c\"", "日付,\"店,名\",100"] {
        let fields = parse_csv_line(line);
        assert_eq!(fields.join(","), line.replace('"', ""), "{}", line);
        assert_eq!(fields.len(), separating_commas(line) + 1, "{}", line);
        assert!(fields.iter().all(|f| !f.contains('"')), "{}", line);
    }
}
