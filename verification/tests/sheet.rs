use invoice_lookup::text::split_lines;
use invoice_lookup::{annotate_sheet, collect_sheet_numbers, InvoiceInfo, InvoiceLookupError};

fn info(registered: bool) -> InvoiceInfo {
    InvoiceInfo {
        name: String::new(),
        registration_date: String::new(),
        address: String::new(),
        last_updated: String::new(),
        registered,
    }
}

#[test]
fn sheet_numbers_are_read_leniently() {
    let lines = split_lines("h\na,b,c,d,T8013201004026\na,b,c,d,8013201004026\na,b,c,d,T12\na,b,c,d,12\na,b,c,d,なし\na,b\n");
    assert_eq!(collect_sheet_numbers(&lines), vec!["T8013201004026", "T12"]);
    assert!(collect_sheet_numbers(&vec![]).is_empty());
}

#[test]
fn sheet_is_annotated_in_place() {
    let lines = split_lines("h\na,b,c,d,T8013201004026\na,b,c,d,8013201004026\na,b,c,d,T12\na,b,c,d,なし\na,b\na,b,c,d,X9");
    let unique = collect_sheet_numbers(&lines);
    let results = vec![Ok(info(true)), Err(InvoiceLookupError::ParseError)];
    let out = annotate_sheet(&lines, &unique, &results);
    assert_eq!(
        out,
        "h,登録状況\na,b,c,d,T8013201004026,登録済\na,b,c,d,8013201004026,登録済\na,b,c,d,T12,確認不可\na,b,c,d,なし,番号なし\na,b,番号なし\na,b,c,d,X9,確認不可"
    );
    assert_eq!(annotate_sheet(&vec![], &unique, &results), "");
}

#[test]
fn unregistered_numbers_in_sheet() {
    let lines = split_lines("h\na,b,c,d,T0000000000000\n");
    let unique = collect_sheet_numbers(&lines);
    let out = annotate_sheet(&lines, &unique, &vec![Ok(info(false))]);
    assert_eq!(out, "h,登録状況\na,b,c,d,T0000000000000,未登録");
}

#[test]
fn lines_split_like_str_lines() {
    for s in ["", "a", "a\n", "a\r\nb", "a\n\nb\n", "a\r", "\n", "a\r\r\n"] {
        let mine = split_lines(s);
        let std_lines: Vec<&str> = s.lines().collect();
        assert_eq!(mine, std_lines, "input {:?}", s);
    }
}

#[test]
fn whitespace_matches_std() {
    for c in ['\t', '\n', '\u{b}', '\u{c}', '\r', ' ', '\u{85}', '\u{a0}', '\u{1680}', '\u{2000}', '\u{200a}', '\u{2028}', '\u{2029}', '\u{202f}', '\u{205f}', '\u{3000}', 'a', '\u{200b}', '\u{180e}', '\u{feff}', '0'] {
        assert_eq!(invoice_lookup::text::white_space(c), c.is_whitespace(), "char {:?}", c);
    }
}

#[test]
fn annotated_sheet_reads_back_line_by_line() {
    let content = "h\r\na,b,c,d,T8013201004026\n\nx\r\r\n";
    let lines = split_lines(content);
    let unique = collect_sheet_numbers(&lines);
    let out = annotate_sheet(&lines, &unique, &vec![Ok(info(true))]);
    let back: Vec<&str> = out.lines().collect();
    assert_eq!(back, vec!["h,登録状況", "a,b,c,d,T8013201004026,登録済", ",番号なし", "x\r,番号なし"]);
}
