//! Annotating a history sheet in place: the sheet keeps its lines and gains
//! a status column. Numbers are read leniently: any cell starting with `T`
//! is looked up as it stands, and thirteen digits get a `T` in front.

use vstd::prelude::*;

use crate::csv::{csv_fields, parse_csv_line};
use crate::history::{
    check_label, first_occurrences, law_each_number_looked_up_once, recorded_status, row_tnum,
};
use crate::page::InvoiceInfo;
use crate::text::{
    chars_of, is_digit, lemma_line_scan_append, lemma_line_scan_newline, lemma_lines_have_no_newline,
    line_scan, lines_of, list_contains, push_char, strip_cr, texts, trim, trim_str,
};
use crate::tnumber::{
    all_digits_in, blank_cell, is_blank_cell, is_registration_digits, normalize_tnum_spec,
    t_number_digits, InvoiceLookupError,
};

verus! {

/// The trimmed fifth cell of a line, if the line has one.
pub open spec fn number_cell(line: Seq<char>) -> Option<Seq<char>> {
    let cols = csv_fields(line);
    if cols.len() > 4 {
        Some(trim(cols[4]))
    } else {
        None
    }
}

/// The number to look up for a cell: a cell starting with `T` as it
/// stands, thirteen digits with a `T` in front; nothing otherwise.
pub open spec fn lookup_key(cell: Seq<char>) -> Option<Seq<char>> {
    if is_blank_cell(cell) {
        None
    } else if cell[0] == 'T' {
        Some(cell)
    } else if is_registration_digits(cell) {
        Some(seq!['T'] + cell)
    } else {
        None
    }
}

/// Every number that the history check looks up, the sheet updater looks up
/// too, in the same form `T` and thirteen digits.
pub proof fn law_updater_reads_numbers_like_check(cell: Seq<char>)
    ensures
        normalize_tnum_spec(cell) matches Some(t) ==> lookup_key(cell) == Some(t),
{
    if let Some(t) = normalize_tnum_spec(cell) {
        if cell[0] == 'T' {
            assert(seq!['T'] + cell.drop_first() == cell);
        }
    }
}

/// The number to look up for a data line.
pub open spec fn line_lookup_key(line: Seq<char>) -> Option<Seq<char>> {
    match number_cell(line) {
        Some(cell) => lookup_key(cell),
        None => None,
    }
}

/// The distinct numbers to look up for a sheet, in order of first
/// appearance among its data lines (every line after the first).
pub open spec fn sheet_numbers(lines: Seq<Seq<char>>) -> Seq<Seq<char>> {
    let data = if lines.len() == 0 {
        Seq::empty()
    } else {
        lines.skip(1)
    };
    first_occurrences(data.map_values(|l: Seq<char>| line_lookup_key(l)))
}

/// The lookup key of the cell in a line, computed.
fn key_of_line(line: &String) -> (r: Option<String>)
    ensures
        match r {
            Some(k) => line_lookup_key(line@) == Some(k@),
            None => line_lookup_key(line@) is None,
        },
{
    let cols = parse_csv_line(line.as_str());
    if cols.len() <= 4 {
        return None;
    }
    assert(texts(cols@)[4] == cols@[4]@);
    let cell = trim_str(cols[4].as_str());
    if blank_cell(cell) {
        return None;
    }
    let v = chars_of(cell);
    assert(v@.subrange(0, v@.len() as int) == v@);
    if v[0] == 'T' {
        Some(String::from_str(cell))
    } else if v.len() == 13 && all_digits_in(&v, 0, v.len()) {
        let mut k = String::new();
        push_char(&mut k, 'T');
        k.append(cell);
        Some(k)
    } else {
        None
    }
}

/// The distinct numbers to look up for a sheet given as lines.
pub fn collect_sheet_numbers(lines: &Vec<String>) -> (r: Vec<String>)
    ensures
        texts(r@) == sheet_numbers(texts(lines@)),
{
    let mut r: Vec<String> = Vec::new();
    let ghost ls = texts(lines@);
    let ghost data = if ls.len() == 0 {
        Seq::<Seq<char>>::empty()
    } else {
        ls.skip(1)
    };
    let ghost keys = data.map_values(|l: Seq<char>| line_lookup_key(l));
    let mut i: usize = 1;
    if lines.len() == 0 {
        assert(keys =~= Seq::<Option<Seq<char>>>::empty());
        assert(texts(r@) =~= Seq::<Seq<char>>::empty());
        return r;
    }
    assert(keys.take(0) =~= Seq::<Option<Seq<char>>>::empty());
    assert(texts(r@) =~= Seq::<Seq<char>>::empty());
    while i < lines.len()
        invariant
            1 <= i <= lines@.len(),
            ls == texts(lines@),
            data == ls.skip(1),
            keys == data.map_values(|l: Seq<char>| line_lookup_key(l)),
            texts(r@) == first_occurrences(keys.take(i - 1)),
        decreases lines@.len() - i,
    {
        let key = key_of_line(&lines[i]);
        assert(keys[i - 1] == line_lookup_key(lines@[i as int]@));
        assert(keys.take(i as int).drop_last() == keys.take(i - 1));
        match key {
            Some(k) => {
                if !list_contains(&r, &k) {
                    r.push(k);
                }
            },
            None => {},
        }
        i += 1;
    }
    assert(keys.take(i - 1) == keys);
    r
}


/// What a lookup said of registration: `Some(registered)` on success.
pub open spec fn info_outcome(r: Result<InvoiceInfo, InvoiceLookupError>) -> Option<bool> {
    match r {
        Ok(info) => Some(info.registered),
        Err(_) => None,
    }
}

/// The outcomes of a list of lookups.
pub open spec fn info_outcomes(v: Seq<Result<InvoiceInfo, InvoiceLookupError>>) -> Seq<
    Option<bool>,
> {
    v.map_values(|r: Result<InvoiceInfo, InvoiceLookupError>| info_outcome(r))
}

/// The registration recorded under `key` from the first `n` looked-up
/// numbers: each successful lookup of `u` is recorded under `u` without its
/// leading `T` and under `T` followed by that; the last record counts.
pub open spec fn sheet_recorded(
    unique: Seq<Seq<char>>,
    outs: Seq<Option<bool>>,
    key: Seq<char>,
    n: int,
) -> Option<bool>
    decreases n,
{
    if n <= 0 {
        None
    } else if outs[n - 1] is Some && (key == t_number_digits(unique[n - 1]) || key == seq!['T']
        + t_number_digits(unique[n - 1])) {
        outs[n - 1]
    } else {
        sheet_recorded(unique, outs, key, n - 1)
    }
}

/// The key under which a non-blank cell is looked up in the records.
pub open spec fn record_key(cell: Seq<char>) -> Seq<char> {
    if cell.len() > 0 && cell[0] == 'T' {
        cell
    } else {
        seq!['T'] + cell
    }
}

/// The status label of a data line.
pub open spec fn sheet_label(
    line: Seq<char>,
    unique: Seq<Seq<char>>,
    outs: Seq<Option<bool>>,
    n: int,
) -> Seq<char> {
    match number_cell(line) {
        None => "番号なし"@,
        Some(cell) => if is_blank_cell(cell) {
            "番号なし"@
        } else {
            match sheet_recorded(unique, outs, record_key(cell), n) {
                Some(true) => "登録済"@,
                Some(false) => "未登録"@,
                None => "確認不可"@,
            }
        },
    }
}

/// The sheet's lines after annotation: the header gains the column name,
/// every data line its status label.
pub open spec fn annotated_lines(
    lines: Seq<Seq<char>>,
    unique: Seq<Seq<char>>,
    outs: Seq<Option<bool>>,
) -> Seq<Seq<char>> {
    let n = if unique.len() < outs.len() {
        unique.len() as int
    } else {
        outs.len() as int
    };
    if lines.len() == 0 {
        Seq::empty()
    } else {
        seq![lines[0] + ",登録状況"@] + lines.skip(1).map_values(
            |l: Seq<char>| l + ","@ + sheet_label(l, unique, outs, n),
        )
    }
}

/// Lines joined with `\n` between them.
pub open spec fn join_lines(s: Seq<Seq<char>>) -> Seq<char>
    decreases s.len(),
{
    if s.len() == 0 {
        Seq::empty()
    } else if s.len() == 1 {
        s[0]
    } else {
        join_lines(s.drop_last()) + "\n"@ + s.last()
    }
}

/// `u` without its leading `T`.
fn without_t(u: &String) -> (d: String)
    ensures
        d@ == t_number_digits(u@),
{
    let v = chars_of(u.as_str());
    assert(v@.subrange(0, v@.len() as int) == v@);
    let start: usize = if v.len() > 0 && v[0] == 'T' {
        1
    } else {
        0
    };
    assert(v@.subrange(start as int, v@.len() as int) == t_number_digits(u@));
    crate::text::string_from(&v, start, v.len())
}

/// The record keys of each looked-up number.
fn record_keys(unique: &Vec<String>) -> (r: Vec<(String, String)>)
    ensures
        r@.len() == unique@.len(),
        forall|k: int|
            0 <= k < r@.len() ==> (#[trigger] r@[k]).0@ == t_number_digits(unique@[k]@) && r@[k].1@
                == seq!['T'] + t_number_digits(unique@[k]@),
{
    let mut r: Vec<(String, String)> = Vec::new();
    let mut i: usize = 0;
    while i < unique.len()
        invariant
            0 <= i <= unique@.len(),
            r@.len() == i,
            forall|k: int|
                0 <= k < i ==> (#[trigger] r@[k]).0@ == t_number_digits(unique@[k]@) && r@[k].1@
                    == seq!['T'] + t_number_digits(unique@[k]@),
        decreases unique@.len() - i,
    {
        let d = without_t(&unique[i]);
        let mut td = String::new();
        push_char(&mut td, 'T');
        td.append(d.as_str());
        r.push((d, td));
        i += 1;
    }
    r
}

/// The registration recorded under `key`.
fn recorded_under(
    keys: &Vec<(String, String)>,
    unique: &Vec<String>,
    results: &Vec<Result<InvoiceInfo, InvoiceLookupError>>,
    key: &String,
) -> (r: Option<bool>)
    requires
        keys@.len() == unique@.len(),
        forall|k: int|
            0 <= k < keys@.len() ==> (#[trigger] keys@[k]).0@ == t_number_digits(unique@[k]@)
                && keys@[k].1@ == seq!['T'] + t_number_digits(unique@[k]@),
    ensures
        r == sheet_recorded(
            texts(unique@),
            info_outcomes(results@),
            key@,
            if unique@.len() < results@.len() {
                unique@.len() as int
            } else {
                results@.len() as int
            },
        ),
{
    let n = if unique.len() < results.len() {
        unique.len()
    } else {
        results.len()
    };
    let mut found: Option<bool> = None;
    let mut i: usize = 0;
    while i < n
        invariant
            0 <= i <= n,
            n <= unique@.len(),
            n <= results@.len(),
            keys@.len() == unique@.len(),
            forall|k: int|
                0 <= k < keys@.len() ==> (#[trigger] keys@[k]).0@ == t_number_digits(unique@[k]@)
                    && keys@[k].1@ == seq!['T'] + t_number_digits(unique@[k]@),
            found == sheet_recorded(texts(unique@), info_outcomes(results@), key@, i as int),
        decreases n - i,
    {
        assert(texts(unique@)[i as int] == unique@[i as int]@);
        assert(info_outcomes(results@)[i as int] == info_outcome(results@[i as int]));
        let ghost k = keys@[i as int];
        match &results[i] {
            Ok(info) => {
                if *key == keys[i].0 || *key == keys[i].1 {
                    found = Some(info.registered);
                }
            },
            Err(_) => {},
        }
        i += 1;
    }
    found
}

/// The status label of a data line, computed.
fn label_of_line(
    line: &String,
    keys: &Vec<(String, String)>,
    unique: &Vec<String>,
    results: &Vec<Result<InvoiceInfo, InvoiceLookupError>>,
) -> (s: &'static str)
    requires
        keys@.len() == unique@.len(),
        forall|k: int|
            0 <= k < keys@.len() ==> (#[trigger] keys@[k]).0@ == t_number_digits(unique@[k]@)
                && keys@[k].1@ == seq!['T'] + t_number_digits(unique@[k]@),
    ensures
        s@ == sheet_label(
            line@,
            texts(unique@),
            info_outcomes(results@),
            if unique@.len() < results@.len() {
                unique@.len() as int
            } else {
                results@.len() as int
            },
        ),
{
    let cols = parse_csv_line(line.as_str());
    if cols.len() <= 4 {
        return "番号なし";
    }
    assert(texts(cols@)[4] == cols@[4]@);
    let cell = trim_str(cols[4].as_str());
    if blank_cell(cell) {
        return "番号なし";
    }
    let v = chars_of(cell);
    let key = if v[0] == 'T' {
        String::from_str(cell)
    } else {
        let mut k = String::new();
        push_char(&mut k, 'T');
        k.append(cell);
        k
    };
    assert(key@ == record_key(cell@));
    match recorded_under(keys, unique, results, &key) {
        Some(true) => "登録済",
        Some(false) => "未登録",
        None => "確認不可",
    }
}

/// The annotated sheet: the header with `,登録状況` appended, each data line
/// with a comma and its status label, the lines joined with `\n`. The
/// results are paired in order with `unique`.
pub fn annotate_sheet(
    lines: &Vec<String>,
    unique: &Vec<String>,
    results: &Vec<Result<InvoiceInfo, InvoiceLookupError>>,
) -> (out: String)
    ensures
        out@ == join_lines(annotated_lines(texts(lines@), texts(unique@), info_outcomes(results@))),
{
    let ghost ls = texts(lines@);
    let ghost us = texts(unique@);
    let ghost outs = info_outcomes(results@);
    let ghost all = annotated_lines(ls, us, outs);
    if lines.len() == 0 {
        return String::new();
    }
    let keys = record_keys(unique);
    let mut out = lines[0].clone();
    out.append(",登録状況");
    assert(ls[0] == lines@[0]@);
    assert(all.take(1) == seq![all[0]]);
    let mut i: usize = 1;
    while i < lines.len()
        invariant
            1 <= i <= lines@.len(),
            ls == texts(lines@),
            us == texts(unique@),
            outs == info_outcomes(results@),
            all == annotated_lines(ls, us, outs),
            all.len() == lines@.len(),
            keys@.len() == unique@.len(),
            forall|k: int|
                0 <= k < keys@.len() ==> (#[trigger] keys@[k]).0@ == t_number_digits(unique@[k]@)
                    && keys@[k].1@ == seq!['T'] + t_number_digits(unique@[k]@),
            out@ == join_lines(all.take(i as int)),
        decreases lines@.len() - i,
    {
        let label = label_of_line(&lines[i], &keys, unique, results);
        out.append("\n");
        out.append(lines[i].as_str());
        out.append(",");
        out.append(label);
        assert(all[i as int] == ls[i as int] + ","@ + label@);
        assert(ls[i as int] == lines@[i as int]@);
        assert(all.take(i + 1).drop_last() == all.take(i as int));
        assert(all.take(i + 1).last() == all[i as int]);
        i += 1;
    }
    assert(all.take(i as int) == all);
    out
}


/// Every number cell of the sheet's data lines is empty, `なし`, or a
/// T-number (`T` optional, thirteen digits).
pub open spec fn well_formed_sheet(lines: Seq<Seq<char>>) -> bool {
    forall|i: int|
        1 <= i < lines.len() ==> (#[trigger] number_cell(lines[i]) matches Some(c) ==> (
        is_blank_cell(c) || normalize_tnum_spec(c) is Some))
}

/// A normalised T-number: `T` and thirteen digits.
pub open spec fn is_normal_tnum(t: Seq<char>) -> bool {
    t.len() == 14 && t[0] == 'T' && is_registration_digits(t.drop_first())
}

proof fn lemma_normalized_form(c: Seq<char>)
    ensures
        normalize_tnum_spec(c) matches Some(t) ==> is_normal_tnum(t),
{
    if let Some(t) = normalize_tnum_spec(c) {
        assert(t.drop_first() == t_number_digits(c));
    }
}

/// With normalised numbers looked up, the updater's records agree with the
/// check's.
proof fn lemma_records_agree(unique: Seq<Seq<char>>, outs: Seq<Option<bool>>, t: Seq<char>, n: int)
    requires
        0 <= n <= unique.len(),
        n <= outs.len(),
        forall|k: int| 0 <= k < unique.len() ==> is_normal_tnum(#[trigger] unique[k]),
        is_normal_tnum(t),
    ensures
        sheet_recorded(unique, outs, t, n) == recorded_status(unique, outs, t, n),
    decreases n,
{
    if n > 0 {
        lemma_records_agree(unique, outs, t, n - 1);
        let u = unique[n - 1];
        assert(is_normal_tnum(u));
        assert(u == seq!['T'] + t_number_digits(u));
        if t == t_number_digits(u) {
            assert(is_digit(t_number_digits(u)[0]));
        }
    }
}

/// On a sheet whose number cells are empty, `なし`, or T-numbers, the sheet
/// updater looks up the same numbers as the history check and gives every
/// data line the label that the check gives the row.
pub proof fn law_updater_agrees_with_check(lines: Seq<Seq<char>>, outs: Seq<Option<bool>>)
    requires
        lines.len() > 0,
        well_formed_sheet(lines),
    ensures
        ({
            let tnums = lines.skip(1).map_values(|l: Seq<char>| row_tnum(l));
            let unique = first_occurrences(tnums);
            let n = if unique.len() < outs.len() {
                unique.len() as int
            } else {
                outs.len() as int
            };
            &&& sheet_numbers(lines) == unique
            &&& forall|i: int|
                1 <= i < lines.len() ==> sheet_label(#[trigger] lines[i], unique, outs, n)
                    == check_label(
                    row_tnum(lines[i]),
                    match row_tnum(lines[i]) {
                        Some(t) => recorded_status(unique, outs, t, n),
                        None => None,
                    },
                )
        }),
{
    let data = lines.skip(1);
    let tnums = data.map_values(|l: Seq<char>| row_tnum(l));
    let keys = data.map_values(|l: Seq<char>| line_lookup_key(l));
    assert forall|j: int| 0 <= j < data.len() implies keys[j] == tnums[j] by {
        let l = data[j];
        assert(l == lines[j + 1]);
        match number_cell(l) {
            Some(c) => {
                law_updater_reads_numbers_like_check(c);
                crate::tnumber::law_normalize_agrees_with_parse(c);
            },
            None => {},
        }
    }
    assert(keys == tnums);
    let unique = first_occurrences(tnums);
    let n = if unique.len() < outs.len() {
        unique.len() as int
    } else {
        outs.len() as int
    };
    law_each_number_looked_up_once(tnums);
    assert forall|k: int| 0 <= k < unique.len() implies is_normal_tnum(#[trigger] unique[k]) by {
        assert(unique.contains(unique[k]));
        let j = choose|j: int| 0 <= j < tnums.len() && #[trigger] tnums[j] == Some(unique[k]);
        lemma_normalized_form(trim(csv_fields(data[j])[4]));
    }
    assert forall|i: int|
        1 <= i < lines.len() implies sheet_label(#[trigger] lines[i], unique, outs, n)
        == check_label(
        row_tnum(lines[i]),
        match row_tnum(lines[i]) {
            Some(t) => recorded_status(unique, outs, t, n),
            None => None,
        },
    ) by {
        let l = lines[i];
        match number_cell(l) {
            Some(c) => {
                lemma_normalized_form(c);
                crate::tnumber::law_normalize_agrees_with_parse(c);
                if !is_blank_cell(c) {
                    let t = normalize_tnum_spec(c).unwrap();
                    law_updater_reads_numbers_like_check(c);
                    assert(record_key(c) == t) by {
                        if c[0] == 'T' {
                            assert(seq!['T'] + c.drop_first() == c);
                        }
                    }
                    lemma_records_agree(unique, outs, t, n);
                }
            },
            None => {},
        }
    }
}


/// A line without line breaks that is not empty and does not end in `\r`.
pub open spec fn plain_line(l: Seq<char>) -> bool {
    &&& l.len() > 0
    &&& l.last() != '\r'
    &&& forall|i: int| 0 <= i < l.len() ==> l[i] != '\n'
}

proof fn lemma_join_scan(s: Seq<Seq<char>>)
    requires
        s.len() > 0,
        forall|k: int| 0 <= k < s.len() ==> plain_line(#[trigger] s[k]),
    ensures
        line_scan(join_lines(s)) == (s.drop_last(), s.last()),
    decreases s.len(),
{
    let e = Seq::<char>::empty();
    if s.len() == 1 {
        lemma_line_scan_append(e, s[0]);
        assert(e + s[0] == s[0]);
        assert(line_scan(e) == (Seq::<Seq<char>>::empty(), e));
        assert(s.drop_last() =~= Seq::<Seq<char>>::empty());
    } else {
        let prev = s.drop_last();
        assert forall|k: int| 0 <= k < prev.len() implies plain_line(#[trigger] prev[k]) by {
            assert(prev[k] == s[k]);
        }
        lemma_join_scan(prev);
        let j = join_lines(prev);
        reveal_strlit("\n");
        assert("\n"@ == seq!['\n']);
        lemma_line_scan_newline(j);
        assert(plain_line(s[s.len() - 1]));
        assert(plain_line(prev[prev.len() - 1]));
        assert(strip_cr(prev.last()) == prev.last());
        lemma_line_scan_append(j.push('\n'), s.last());
        assert(join_lines(s) == j.push('\n') + s.last());
        assert(e + s.last() == s.last());
        assert(prev.drop_last().push(prev.last()) == prev);
    }
}

/// The annotated sheet reads back line by line: splitting what
/// `annotate_sheet` writes into lines gives the header with the status
/// column's name and each data line with a comma and its label.
pub proof fn law_annotated_sheet_reads_back(
    content: Seq<char>,
    unique: Seq<Seq<char>>,
    outs: Seq<Option<bool>>,
)
    ensures
        lines_of(join_lines(annotated_lines(lines_of(content), unique, outs))) == annotated_lines(
            lines_of(content),
            unique,
            outs,
        ),
{
    let ls = lines_of(content);
    let a = annotated_lines(ls, unique, outs);
    if ls.len() > 0 {
        lemma_lines_have_no_newline(content);
        reveal_strlit(",登録状況");
        reveal_strlit(",");
        reveal_strlit("登録済");
        reveal_strlit("未登録");
        reveal_strlit("番号なし");
        reveal_strlit("確認不可");
        let n = if unique.len() < outs.len() {
            unique.len() as int
        } else {
            outs.len() as int
        };
        assert forall|k: int| 0 <= k < a.len() implies plain_line(#[trigger] a[k]) by {
            if k == 0 {
                let h = ls[0] + ",登録状況"@;
                assert(a[0] == h);
                assert forall|i: int| 0 <= i < h.len() implies h[i] != '\n' by {
                    if i < ls[0].len() {
                        assert(h[i] == ls[0][i]);
                        assert(ls[0][i] != '\n');
                    } else {
                        assert(h[i] == ",登録状況"@[i - ls[0].len()]);
                    }
                }
            } else {
                let l = ls[k];
                let lab = sheet_label(l, unique, outs, n);
                let x = l + ","@ + lab;
                assert(a[k] == x);
                assert(lab.len() > 0 && lab.last() != '\r');
                assert(forall|i: int| 0 <= i < lab.len() ==> lab[i] != '\n');
                assert forall|i: int| 0 <= i < x.len() implies x[i] != '\n' by {
                    if i < l.len() {
                        assert(x[i] == l[i]);
                        assert(ls[k][i] != '\n');
                    } else if i == l.len() {
                        assert(x[i] == ',');
                    } else {
                        assert(x[i] == lab[i - l.len() - 1]);
                    }
                }
                assert(x.last() == lab.last());
            }
        }
        lemma_join_scan(a);
        assert(a.drop_last().push(a.last()) == a);
    } else {
        assert(a == Seq::<Seq<char>>::empty());
        assert(join_lines(a) == Seq::<char>::empty());
        assert(line_scan(Seq::<char>::empty()) == (Seq::<Seq<char>>::empty(), Seq::<char>::empty()));
    }
}

} // verus!
