//! Checking a history sheet: which T-numbers to look up, the status of each
//! row, the annotated sheet and the summary.

use vstd::prelude::*;

use crate::csv::{csv_fields, law_first_field, parse_csv_line};
use crate::date::{date_before, law_date_order, SimpleDate};
use crate::date_parse::{
    csv_date_spec, era_named, japanese_date_spec, law_csv_date_reads_back,
    law_japanese_date_reads_back,
};
use crate::entity::{HistoryRow, InvoiceRegistration, RegistrationStatus};
use crate::text::{
    decimal, law_parse_u32_reads_padded, zeros, lemma_lines_have_no_newline, lemma_line_scan_append, lemma_line_scan_newline, line_scan, lines_of, list_contains,
    split_lines, strip_cr, texts, trim, trim_str,
};
use crate::tnumber::{normalize_tnum, normalize_tnum_spec};

verus! {

/// The text of an optional string.
pub open spec fn opt_text(o: Option<String>) -> Option<Seq<char>> {
    match o {
        Some(s) => Some(s@),
        None => None,
    }
}

/// The texts of a list of optional strings.
pub open spec fn opt_texts(v: Seq<Option<String>>) -> Seq<Option<Seq<char>>> {
    v.map_values(|o: Option<String>| opt_text(o))
}

/// The normalised T-number in the fifth column of a data line.
pub open spec fn row_tnum(line: Seq<char>) -> Option<Seq<char>> {
    let cols = csv_fields(line);
    if cols.len() > 4 {
        normalize_tnum_spec(trim(cols[4]))
    } else {
        None
    }
}

/// The T-numbers present in `ts`, each once, in order of first appearance.
pub open spec fn first_occurrences(ts: Seq<Option<Seq<char>>>) -> Seq<Seq<char>>
    decreases ts.len(),
{
    if ts.len() == 0 {
        Seq::empty()
    } else {
        let u = first_occurrences(ts.drop_last());
        match ts.last() {
            Some(t) => if u.contains(t) {
                u
            } else {
                u.push(t)
            },
            None => u,
        }
    }
}

/// Each T-number of the sheet is looked up exactly once: the list of
/// numbers to look up has no repeats, and holds a number exactly when some
/// row has it.
pub proof fn law_each_number_looked_up_once(ts: Seq<Option<Seq<char>>>)
    ensures
        first_occurrences(ts).no_duplicates(),
        forall|t: Seq<char>|
            first_occurrences(ts).contains(t) <==> exists|i: int|
                0 <= i < ts.len() && #[trigger] ts[i] == Some(t),
    decreases ts.len(),
{
    if ts.len() > 0 {
        let prev = ts.drop_last();
        law_each_number_looked_up_once(prev);
        let u = first_occurrences(prev);
        assert forall|t: Seq<char>|
            first_occurrences(ts).contains(t) <==> exists|i: int|
                0 <= i < ts.len() && #[trigger] ts[i] == Some(t) by {
            if first_occurrences(ts).contains(t) {
                if u.contains(t) {
                    let i = choose|i: int| 0 <= i < prev.len() && #[trigger] prev[i] == Some(t);
                    assert(ts[i] == Some(t));
                } else {
                    assert(ts.last() == Some(t)) by {
                        let k = choose|k: int|
                            0 <= k < first_occurrences(ts).len() && first_occurrences(ts)[k]
                                == t;
                        if k < u.len() {
                            assert(u[k] == t);
                        }
                    }
                    assert(ts[ts.len() - 1] == Some(t));
                }
            }
            if exists|i: int| 0 <= i < ts.len() && #[trigger] ts[i] == Some(t) {
                let i = choose|i: int| 0 <= i < ts.len() && #[trigger] ts[i] == Some(t);
                if i < ts.len() - 1 {
                    assert(prev[i] == Some(t));
                    assert(u.contains(t));
                    let k = choose|k: int| 0 <= k < u.len() && u[k] == t;
                    match ts.last() {
                        Some(x) => if !u.contains(x) {
                            assert(u.push(x)[k] == t);
                        },
                        None => {},
                    }
                } else {
                    match ts.last() {
                        Some(x) => if !u.contains(x) {
                            assert(u.push(x)[u.len() as int] == t);
                        },
                        None => {},
                    }
                }
            }
        }
    }
}

/// What to look up for a sheet: its header, its data lines, each data
/// line's T-number, and the distinct T-numbers to ask the registry about.
pub struct HistoryPlan {
    pub header: String,
    pub data_lines: Vec<String>,
    pub row_tnums: Vec<Option<String>>,
    pub unique_tnums: Vec<String>,
}

impl HistoryPlan {
    /// The plan's header, data lines and T-numbers are those of `content`.
    pub open spec fn plans(&self, content: Seq<char>) -> bool {
        let ls = lines_of(content);
        let data = if ls.len() == 0 {
            Seq::empty()
        } else {
            ls.skip(1)
        };
        &&& self.header@ == if ls.len() == 0 {
            Seq::<char>::empty()
        } else {
            ls[0]
        }
        &&& texts(self.data_lines@) == data
        &&& opt_texts(self.row_tnums@) == data.map_values(|l: Seq<char>| row_tnum(l))
        &&& texts(self.unique_tnums@) == first_occurrences(opt_texts(self.row_tnums@))
    }

    /// Reads a history sheet: the first line is the header, the T-number of
    /// a data line is its fifth field, trimmed and normalised.
    pub fn from_csv(csv_content: &str) -> (plan: HistoryPlan)
        ensures
            plan.plans(csv_content@),
            plan.data_lines@.len() < usize::MAX,
    {
        let lines = split_lines(csv_content);
        if lines.len() == 0 {
            let plan = HistoryPlan {
                header: String::new(),
                data_lines: Vec::new(),
                row_tnums: Vec::new(),
                unique_tnums: Vec::new(),
            };
            assert(lines_of(csv_content@).len() == 0);
            assert(texts(plan.data_lines@) =~= Seq::<Seq<char>>::empty());
            assert(opt_texts(plan.row_tnums@) =~= Seq::<Option<Seq<char>>>::empty());
            assert(texts(plan.unique_tnums@) =~= Seq::<Seq<char>>::empty());
            assert(Seq::<Seq<char>>::empty().map_values(|l: Seq<char>| row_tnum(l))
                =~= Seq::<Option<Seq<char>>>::empty());
            return plan;
        }
        let header = lines[0].clone();
        let ghost data = lines_of(csv_content@).skip(1);
        let mut data_lines: Vec<String> = Vec::new();
        let mut row_tnums: Vec<Option<String>> = Vec::new();
        let mut unique_tnums: Vec<String> = Vec::new();
        let mut i: usize = 1;
        while i < lines.len()
            invariant
                1 <= i <= lines@.len(),
                data_lines@.len() == i - 1,
                texts(lines@) == lines_of(csv_content@),
                data == lines_of(csv_content@).skip(1),
                texts(data_lines@) == data.take(i - 1),
                opt_texts(row_tnums@) == data.take(i - 1).map_values(|l: Seq<char>| row_tnum(l)),
                texts(unique_tnums@) == first_occurrences(opt_texts(row_tnums@)),
            decreases lines@.len() - i,
        {
            let line = &lines[i];
            assert(data[i - 1] == line@);
            let cols = parse_csv_line(line.as_str());
            let tnum = if cols.len() > 4 {
                assert(texts(cols@)[4] == cols@[4]@);
                normalize_tnum(trim_str(cols[4].as_str()))
            } else {
                None
            };
            assert(opt_text(tnum) == row_tnum(line@));
            let ghost prev = opt_texts(row_tnums@);
            match &tnum {
                Some(t) => {
                    if !list_contains(&unique_tnums, t) {
                        unique_tnums.push(t.clone());
                    }
                },
                None => {},
            }
            row_tnums.push(tnum);
            data_lines.push(line.clone());
            assert(opt_texts(row_tnums@).drop_last() == prev);
            assert(data.take(i as int) == data.take(i - 1).push(line@));
            assert(data.take(i as int).map_values(|l: Seq<char>| row_tnum(l)) == data.take(
                i - 1,
            ).map_values(|l: Seq<char>| row_tnum(l)).push(row_tnum(line@)));
            i += 1;
        }
        assert(data.take(i - 1) == data);
        HistoryPlan { header, data_lines, row_tnums, unique_tnums }
    }
}


/// What a lookup result records: whether the number is registered and its
/// registration date as the registry writes it, when the lookup succeeded.
pub open spec fn outcome(r: Result<InvoiceRegistration, String>) -> Option<(bool, Seq<char>)> {
    match r {
        Ok(info) => Some((info.registered, info.registration_date@)),
        Err(_) => None,
    }
}

/// The outcomes of a list of lookup results.
pub open spec fn outcomes(v: Seq<Result<InvoiceRegistration, String>>) -> Seq<
    Option<(bool, Seq<char>)>,
> {
    v.map_values(|r: Result<InvoiceRegistration, String>| outcome(r))
}

/// What is recorded for `t` from the first `n` pairs of looked-up numbers
/// and outcomes: the last successful outcome for `t`.
pub open spec fn recorded_status<A>(
    unique: Seq<Seq<char>>,
    outs: Seq<Option<A>>,
    t: Seq<char>,
    n: int,
) -> Option<A>
    decreases n,
{
    if n <= 0 {
        None
    } else if unique[n - 1] == t && outs[n - 1] is Some {
        outs[n - 1]
    } else {
        recorded_status(unique, outs, t, n - 1)
    }
}

/// Each looked-up number gets the result at its own position: when the
/// numbers looked up are distinct, what is recorded for the number at
/// position `j` is the outcome at position `j` (nothing when that lookup
/// failed), and nothing is recorded for a number that was not looked up.
pub proof fn law_each_number_gets_its_own_result<A>(
    unique: Seq<Seq<char>>,
    outs: Seq<Option<A>>,
    t: Seq<char>,
    n: int,
)
    requires
        unique.no_duplicates(),
        n <= unique.len(),
        n <= outs.len(),
    ensures
        forall|j: int| 0 <= j < n && #[trigger] unique[j] == t ==> recorded_status(unique, outs, t, n) == outs[j],
        (forall|j: int| 0 <= j < n ==> #[trigger] unique[j] != t) ==> recorded_status(unique, outs, t, n) is None,
    decreases n,
{
    if n > 0 {
        law_each_number_gets_its_own_result(unique, outs, t, n - 1);
        assert forall|j: int| 0 <= j < n && #[trigger] unique[j] == t implies recorded_status(
            unique,
            outs,
            t,
            n,
        ) == outs[j] by {
            if j < n - 1 {
                assert(unique[n - 1] != unique[j]);
            }
        }
    }
}

/// The smaller of two lengths.
pub open spec fn min_len(a: nat, b: nat) -> int {
    if a < b {
        a as int
    } else {
        b as int
    }
}

/// The date of use of a data line: its first field read as a sheet date.
pub open spec fn usage_date(line: Seq<char>) -> Option<SimpleDate> {
    csv_date_spec(csv_fields(line)[0])
}

/// A registration date as the registry writes it (`令和5年10月1日`), when it
/// reads as a Japanese-era date whose year fits a `u32`.
pub open spec fn registration_date_of(text: Seq<char>) -> Option<SimpleDate> {
    match japanese_date_spec(text) {
        Some((y, m, d)) => if y <= u32::MAX {
            Some(SimpleDate(y as u32, m, d))
        } else {
            None
        },
        None => None,
    }
}

/// Both dates are known and the use comes before the registration.
pub open spec fn used_before(usage: Option<SimpleDate>, registration: Option<SimpleDate>) -> bool {
    match (usage, registration) {
        (Some(u), Some(r)) => date_before(u, r),
        _ => false,
    }
}

/// The status a row gets: no number; `lookup failed` when nothing was
/// recorded for its number; unregistered; and for a registered number,
/// before registration when the row's date of use comes before the
/// registration date, registered otherwise (on or after it, or when either
/// date cannot be read).
pub open spec fn status_fits(
    st: RegistrationStatus,
    tnum: Option<Seq<char>>,
    found: Option<(bool, Seq<char>)>,
    usage: Option<SimpleDate>,
) -> bool {
    match tnum {
        None => st is NoNumber,
        Some(_) => match found {
            None => st matches RegistrationStatus::Error(m) && m@ == "lookup failed"@,
            Some((false, _)) => st is Unregistered,
            Some((true, reg)) => if used_before(usage, registration_date_of(reg)) {
                st is BeforeRegistration
            } else {
                st is Registered
            },
        },
    }
}

/// The label for a row from its T-number and the registry's flag alone,
/// without dates.
pub open spec fn check_label(tnum: Option<Seq<char>>, found: Option<bool>) -> Seq<char> {
    match tnum {
        None => "番号なし"@,
        Some(_) => match found {
            Some(true) => "登録済"@,
            Some(false) => "未登録"@,
            None => "確認不可"@,
        },
    }
}

/// The registry's flag in what was recorded.
pub open spec fn flag_of(found: Option<(bool, Seq<char>)>) -> Option<bool> {
    match found {
        Some((b, _)) => Some(b),
        None => None,
    }
}

/// The registration date text in what was recorded.
pub open spec fn date_text_of(found: Option<(bool, Seq<char>)>) -> Seq<char> {
    match found {
        Some((_, d)) => d,
        None => Seq::empty(),
    }
}

/// The status that the check gives a row carries the label that
/// `check_label` names for the row's T-number and the registry's flag,
/// except a row used before registration, whose number is registered.
pub proof fn law_status_carries_label(
    st: RegistrationStatus,
    tnum: Option<Seq<char>>,
    found: Option<(bool, Seq<char>)>,
    usage: Option<SimpleDate>,
)
    requires
        status_fits(st, tnum, found, usage),
    ensures
        st is BeforeRegistration ==> flag_of(found) == Some(true) && used_before(
            usage,
            registration_date_of(date_text_of(found)),
        ),
        !(st is BeforeRegistration) ==> st.label_spec() == check_label(tnum, flag_of(found)),
{
}

/// A date as a sheet writes it: year, month and day in decimal, separated
/// by `/`, each with the given number of leading zeros (`2023/9/30`,
/// `2025/01/02`).
pub open spec fn sheet_date_text(y: u32, m: u32, d: u32, zy: nat, zm: nat, zd: nat) -> Seq<char> {
    zeros(zy) + decimal(y as nat) + seq!['/'] + zeros(zm) + decimal(m as nat) + seq!['/'] + zeros(
        zd,
    ) + decimal(d as nat)
}

/// A registration date as the registry writes it: era name, era year, `年`,
/// month, `月`, day, `日`, in decimal.
pub open spec fn era_date_text(era: Seq<char>, y: u32, m: u32, d: u32) -> Seq<char> {
    era + decimal(y as nat) + "年"@ + decimal(m as nat) + "月"@ + decimal(d as nat) + "日"@
}

/// The date of use of a data line is its first field, whatever follows it
/// and whatever the field's length: a line that starts with a written date
/// and a comma is used on that date.
pub proof fn law_use_date_is_first_field(
    y: u32,
    m: u32,
    d: u32,
    zy: nat,
    zm: nat,
    zd: nat,
    rest: Seq<char>,
)
    ensures
        usage_date(sheet_date_text(y, m, d, zy, zm, zd) + seq![','] + rest) == Some(
            SimpleDate(y, m, d),
        ),
{
    let p = sheet_date_text(y, m, d, zy, zm, zd);
    let dy = zeros(zy) + decimal(y as nat);
    let dm = zeros(zm) + decimal(m as nat);
    let dd = zeros(zd) + decimal(d as nat);
    law_parse_u32_reads_padded(y, zy);
    law_parse_u32_reads_padded(m, zm);
    law_parse_u32_reads_padded(d, zd);
    assert(p == dy + seq!['/'] + dm + seq!['/'] + dd);
    assert forall|i: int| 0 <= i < p.len() implies p[i] != '"' && p[i] != ',' by {
        if i < dy.len() {
            assert(p[i] == dy[i]);
        } else if i == dy.len() {
        } else if i < dy.len() + 1 + dm.len() {
            assert(p[i] == dm[i - dy.len() - 1]);
        } else if i == dy.len() + 1 + dm.len() {
        } else {
            assert(p[i] == dd[i - dy.len() - 2 - dm.len()]);
        }
    }
    law_first_field(p, rest);
    law_csv_date_reads_back(y, m, d, zy, zm, zd);
}

/// A use is before a registration exactly when both dates are known and the
/// use has the earlier year, or the same year and an earlier month, or the
/// same year and month and an earlier day.
pub proof fn law_used_before_is_chronological(u: SimpleDate, r: SimpleDate)
    ensures
        used_before(Some(u), Some(r)) <==> (u.0 < r.0 || (u.0 == r.0 && (u.1 < r.1 || (u.1 == r.1
            && u.2 < r.2)))),
        !used_before(None, Some(r)),
        !used_before(Some(u), None),
{
}

/// A registration date written in an era reads as the era's offset plus the
/// era year, the month and the day.
pub proof fn law_registration_date_reads_era(
    era: Seq<char>,
    offset: u32,
    y: u32,
    m: u32,
    d: u32,
)
    requires
        era_named(era, offset),
        offset + y <= u32::MAX,
    ensures
        registration_date_of(era_date_text(era, y, m, d)) == Some(
            SimpleDate((offset + y) as u32, m, d),
        ),
{
    law_japanese_date_reads_back(era, offset, y, m, d);
}

/// A row whose registered number was registered on an era date, and whose
/// line starts with its date of use, is before registration exactly when
/// the use comes earlier than the registration in (year, month, day)
/// order, and registered otherwise.
pub proof fn law_row_before_registration(
    st: RegistrationStatus,
    t: Seq<char>,
    y: u32,
    m: u32,
    d: u32,
    zy: nat,
    zm: nat,
    zd: nat,
    rest: Seq<char>,
    era: Seq<char>,
    offset: u32,
    ry: u32,
    rm: u32,
    rd: u32,
)
    requires
        era_named(era, offset),
        offset + ry <= u32::MAX,
        status_fits(
            st,
            Some(t),
            Some((true, era_date_text(era, ry, rm, rd))),
            usage_date(sheet_date_text(y, m, d, zy, zm, zd) + seq![','] + rest),
        ),
    ensures
        st is BeforeRegistration <==> (y < offset + ry || (y == offset + ry && (m < rm || (m == rm
            && d < rd)))),
        !(st is BeforeRegistration) ==> st is Registered,
{
    law_use_date_is_first_field(y, m, d, zy, zm, zd, rest);
    law_registration_date_reads_era(era, offset, ry, rm, rd);
    law_used_before_is_chronological(SimpleDate(y, m, d), SimpleDate((offset + ry) as u32, rm, rd));
}

/// The registration recorded for `t`: the last successful lookup of `t`
/// among the pairs of looked-up numbers and results.
fn recorded_for<'a>(
    unique: &Vec<String>,
    results: &'a Vec<Result<InvoiceRegistration, String>>,
    t: &String,
) -> (r: Option<&'a InvoiceRegistration>)
    ensures
        recorded_status(
            texts(unique@),
            outcomes(results@),
            t@,
            min_len(unique@.len(), results@.len()),
        ) == match r {
            Some(info) => Some((info.registered, info.registration_date@)),
            None => None,
        },
{
    let n = if unique.len() < results.len() {
        unique.len()
    } else {
        results.len()
    };
    let mut found: Option<&'a InvoiceRegistration> = None;
    let mut i: usize = 0;
    while i < n
        invariant
            0 <= i <= n,
            n == min_len(unique@.len(), results@.len()),
            recorded_status(texts(unique@), outcomes(results@), t@, i as int) == match found {
                Some(info) => Some((info.registered, info.registration_date@)),
                None => None,
            },
        decreases n - i,
    {
        assert(texts(unique@)[i as int] == unique@[i as int]@);
        assert(outcomes(results@)[i as int] == outcome(results@[i as int]));
        if unique[i] == *t {
            match &results[i] {
                Ok(info) => {
                    found = Some(info);
                },
                Err(_) => {},
            }
        }
        i += 1;
    }
    found
}

/// Whether the use on the date in the first field of `line` comes before
/// the registration date `registration`.
fn is_used_before(line: &String, registration: &String) -> (b: bool)
    ensures
        b == used_before(usage_date(line@), registration_date_of(registration@)),
{
    let cols = parse_csv_line(line.as_str());
    assert(csv_fields(line@).len() > 0);
    assert(texts(cols@).len() == cols@.len());
    assert(texts(cols@)[0] == cols@[0]@);
    let usage = SimpleDate::from_csv_date(cols[0].as_str());
    let reg = if SimpleDate::japanese_date_in_range(registration.as_str()) {
        SimpleDate::from_japanese_date(registration.as_str())
    } else {
        None
    };
    match (usage, reg) {
        (Some(u), Some(r)) => {
            proof {
                law_date_order(u, r, r);
            }
            u < r
        },
        _ => false,
    }
}

/// The rows of a checked sheet and its header.
pub struct CheckHistoryResult {
    pub header: String,
    pub rows: Vec<HistoryRow>,
}

impl HistoryPlan {
    /// `r` is what `resolve` gives for the plan and `results`: the header,
    /// one row per data line, each with its line number (the header is line
    /// 1), its line, its T-number and the status that the lookup results and
    /// the dates give it.
    pub open spec fn resolves(
        &self,
        results: Seq<Result<InvoiceRegistration, String>>,
        r: CheckHistoryResult,
    ) -> bool {
        &&& r.header@ == self.header@
        &&& r.rows@.len() == min_len(self.data_lines@.len(), self.row_tnums@.len())
        &&& forall|i: int|
            0 <= i < r.rows@.len() ==> {
                let row = #[trigger] r.rows@[i];
                let tnum = opt_text(self.row_tnums@[i]);
                &&& row.line_number == i + 2
                &&& row.raw_line@ == self.data_lines@[i]@
                &&& opt_text(row.t_number) == tnum
                &&& status_fits(
                    row.status,
                    tnum,
                    match tnum {
                        Some(t) => recorded_status(
                            texts(self.unique_tnums@),
                            outcomes(results),
                            t,
                            min_len(self.unique_tnums@.len(), results.len()),
                        ),
                        None => None,
                    },
                    usage_date(self.data_lines@[i]@),
                )
            }
    }

    /// Gives each data line its status from the lookup results, which are
    /// paired in order with `unique_tnums`, and from the dates: a registered
    /// number used (first field) before its registration date is before
    /// registration.
    pub fn resolve(&self, results: &Vec<Result<InvoiceRegistration, String>>) -> (r:
        CheckHistoryResult)
        requires
            self.data_lines@.len() < usize::MAX,
        ensures
            self.resolves(results@, r),
    {
        let n = if self.data_lines.len() < self.row_tnums.len() {
            self.data_lines.len()
        } else {
            self.row_tnums.len()
        };
        let ghost m = min_len(self.unique_tnums@.len(), results@.len());
        let mut rows: Vec<HistoryRow> = Vec::new();
        let mut i: usize = 0;
        while i < n
            invariant
                0 <= i <= n,
                n == min_len(self.data_lines@.len(), self.row_tnums@.len()),
                n < usize::MAX,
                m == min_len(self.unique_tnums@.len(), results@.len()),
                rows@.len() == i,
                forall|j: int|
                    0 <= j < i ==> {
                        let row = #[trigger] rows@[j];
                        let tnum = opt_text(self.row_tnums@[j]);
                        &&& row.line_number == j + 2
                        &&& row.raw_line@ == self.data_lines@[j]@
                        &&& opt_text(row.t_number) == tnum
                        &&& status_fits(
                            row.status,
                            tnum,
                            match tnum {
                                Some(t) => recorded_status(
                                    texts(self.unique_tnums@),
                                    outcomes(results@),
                                    t,
                                    m,
                                ),
                                None => None,
                            },
                            usage_date(self.data_lines@[j]@),
                        )
                    },
            decreases n - i,
        {
            let line = &self.data_lines[i];
            let (t_number, status) = match &self.row_tnums[i] {
                Some(t) => {
                    let status = match recorded_for(&self.unique_tnums, results, t) {
                        Some(info) => if !info.registered {
                            RegistrationStatus::Unregistered
                        } else if is_used_before(line, &info.registration_date) {
                            RegistrationStatus::BeforeRegistration
                        } else {
                            RegistrationStatus::Registered
                        },
                        None => RegistrationStatus::Error(String::from_str("lookup failed")),
                    };
                    (Some(t.clone()), status)
                },
                None => (None, RegistrationStatus::NoNumber),
            };
            rows.push(
                HistoryRow {
                    line_number: i + 2,
                    raw_line: line.clone(),
                    t_number,
                    status,
                },
            );
            i += 1;
        }
        CheckHistoryResult { header: self.header.clone(), rows }
    }
}

/// The sheet lines of the rows: each row's line, a comma and its label.
pub open spec fn rows_csv(rows: Seq<HistoryRow>) -> Seq<char>
    decreases rows.len(),
{
    if rows.len() == 0 {
        Seq::empty()
    } else {
        rows_csv(rows.drop_last()) + rows.last().raw_line@ + ","@ + rows.last().status.label_spec()
            + "\n"@
    }
}

/// The sheet line of a checked row: the row, a comma and its label.
pub open spec fn checked_line(row: HistoryRow) -> Seq<char> {
    row.raw_line@ + ","@ + row.status.label_spec()
}

/// No line break in `s`.
pub open spec fn single_line(s: Seq<char>) -> bool {
    forall|i: int| 0 <= i < s.len() ==> s[i] != '\n'
}

proof fn lemma_checked_line(row: HistoryRow)
    requires
        single_line(row.raw_line@),
    ensures
        single_line(checked_line(row)),
        checked_line(row).len() > 0,
        checked_line(row).last() != '\r',
{
    reveal_strlit(",");
    reveal_strlit("登録済");
    reveal_strlit("登録前");
    reveal_strlit("未登録");
    reveal_strlit("番号なし");
    reveal_strlit("確認不可");
    let l = row.status.label_spec();
    assert(l.len() > 0);
    assert(forall|i: int| 0 <= i < l.len() ==> l[i] != '\n');
    assert(l.last() != '\r');
    let c = checked_line(row);
    assert forall|i: int| 0 <= i < c.len() implies c[i] != '\n' by {
        if i < row.raw_line@.len() {
            assert(c[i] == row.raw_line@[i]);
        } else if i == row.raw_line@.len() {
            assert(c[i] == ',');
        } else {
            assert(c[i] == l[i - row.raw_line@.len() - 1]);
        }
    }
    assert(c.last() == l.last());
}

proof fn lemma_checked_scan(header: Seq<char>, rows: Seq<HistoryRow>)
    requires
        single_line(header),
        forall|i: int| 0 <= i < rows.len() ==> single_line(#[trigger] rows[i].raw_line@),
    ensures
        line_scan(header + ",登録状況\n"@ + rows_csv(rows)) == (
            seq![header + ",登録状況"@] + rows.map_values(|r: HistoryRow| checked_line(r)),
            Seq::<char>::empty(),
        ),
    decreases rows.len(),
{
    reveal_strlit(",登録状況\n");
    reveal_strlit(",登録状況");
    let e = Seq::<char>::empty();
    if rows.len() == 0 {
        let h = header + ",登録状況"@;
        assert forall|i: int| 0 <= i < h.len() implies h[i] != '\n' by {
            if i >= header.len() {
                assert(h[i] == ",登録状況"@[i - header.len()]);
            }
        }
        lemma_line_scan_append(e, h);
        assert(e + h == h);
        assert(line_scan(e) == (Seq::<Seq<char>>::empty(), e));
        lemma_line_scan_newline(h);
        assert(header + ",登録状況\n"@ + rows_csv(rows) == h.push('\n'));
        assert(strip_cr(h) == h);
        assert(rows.map_values(|r: HistoryRow| checked_line(r)) =~= Seq::<Seq<char>>::empty());
        assert(seq![h] =~= Seq::<Seq<char>>::empty().push(h));
    } else {
        let prev = rows.drop_last();
        assert forall|i: int| 0 <= i < prev.len() implies single_line(#[trigger] prev[i].raw_line@) by {
            assert(prev[i] == rows[i]);
        }
        lemma_checked_scan(header, prev);
        let row = rows.last();
        assert(single_line(rows[rows.len() - 1].raw_line@));
        lemma_checked_line(row);
        let p = header + ",登録状況\n"@ + rows_csv(prev);
        let c = checked_line(row);
        lemma_line_scan_append(p, c);
        lemma_line_scan_newline(p + c);
        reveal_strlit("\n");
        assert(rows_csv(rows) == rows_csv(prev) + row.raw_line@ + ","@ + row.status.label_spec()
            + "\n"@);
        assert("\n"@ == seq!['\n']);
        assert(header + ",登録状況\n"@ + rows_csv(rows) =~= (p + c).push('\n'));
        assert(e + c == c);
        assert(strip_cr(c) == c);
        assert(rows.map_values(|r: HistoryRow| checked_line(r)) == prev.map_values(
            |r: HistoryRow| checked_line(r),
        ).push(c));
    }
}

/// The checked sheet reads back line by line: splitting the text of
/// `to_csv` into lines gives the header with the status column's name,
/// then each row followed by a comma and its status label.
pub proof fn law_checked_sheet_reads_back(header: Seq<char>, rows: Seq<HistoryRow>)
    requires
        single_line(header),
        forall|i: int| 0 <= i < rows.len() ==> single_line(#[trigger] rows[i].raw_line@),
    ensures
        lines_of(header + ",登録状況\n"@ + rows_csv(rows)) == seq![header + ",登録状況"@]
            + rows.map_values(|r: HistoryRow| checked_line(r)),
{
    lemma_checked_scan(header, rows);
}

/// The history check keeps every line of the sheet: when the rows stand for
/// the sheet's data lines in order, the checked sheet has as many lines as
/// the sheet, the header gains the status column's name and each data line
/// is followed by a comma and its status label.
pub proof fn law_check_keeps_every_line(content: Seq<char>, header: Seq<char>, rows: Seq<HistoryRow>)
    requires
        lines_of(content).len() > 0,
        header == lines_of(content)[0],
        rows.len() + 1 == lines_of(content).len(),
        forall|i: int| 0 <= i < rows.len() ==> #[trigger] rows[i].raw_line@ == lines_of(content)[i + 1],
    ensures
        lines_of(header + ",登録状況\n"@ + rows_csv(rows)).len() == lines_of(content).len(),
        lines_of(header + ",登録状況\n"@ + rows_csv(rows))[0] == lines_of(content)[0] + ",登録状況"@,
        forall|i: int|
            1 <= i < lines_of(content).len() ==> #[trigger] lines_of(
                header + ",登録状況\n"@ + rows_csv(rows),
            )[i] == lines_of(content)[i] + ","@ + rows[i - 1].status.label_spec(),
{
    let ls = lines_of(content);
    lemma_lines_have_no_newline(content);
    assert forall|i: int| 0 <= i < header.len() implies header[i] != '\n' by {
        assert(ls[0][i] != '\n');
    }
    assert forall|r: int| 0 <= r < rows.len() implies single_line(#[trigger] rows[r].raw_line@) by {
        assert forall|i: int| 0 <= i < rows[r].raw_line@.len() implies rows[r].raw_line@[i] != '\n' by {
            assert(ls[r + 1][i] != '\n');
        }
    }
    law_checked_sheet_reads_back(header, rows);
}

/// The data lines of a sheet: every line after the first.
pub open spec fn sheet_data(content: Seq<char>) -> Seq<Seq<char>> {
    if lines_of(content).len() == 0 {
        Seq::empty()
    } else {
        lines_of(content).skip(1)
    }
}

/// The history check of a sheet, end to end: planned from `content` and
/// resolved with the lookup results of the planned numbers. The header is
/// the sheet's first line; there is one row per data line, in order, with
/// line numbers from 2, the line itself, the normalised number of its fifth
/// field and its status; each number is looked up once; and the checked
/// sheet reads back as the sheet's lines with the status column added.
pub proof fn law_check_history(
    content: Seq<char>,
    plan: HistoryPlan,
    results: Seq<Result<InvoiceRegistration, String>>,
    r: CheckHistoryResult,
)
    requires
        plan.plans(content),
        plan.resolves(results, r),
    ensures
        lines_of(content).len() == 0 ==> r.header@.len() == 0 && r.rows@.len() == 0,
        lines_of(content).len() > 0 ==> r.header@ == lines_of(content)[0],
        r.rows@.len() == sheet_data(content).len(),
        forall|k: int|
            0 <= k < r.rows@.len() ==> {
                let row = #[trigger] r.rows@[k];
                let line = sheet_data(content)[k];
                &&& row.line_number == k + 2
                &&& row.raw_line@ == line
                &&& opt_text(row.t_number) == row_tnum(line)
                &&& status_fits(
                    row.status,
                    row_tnum(line),
                    match row_tnum(line) {
                        Some(t) => recorded_status(
                            texts(plan.unique_tnums@),
                            outcomes(results),
                            t,
                            min_len(plan.unique_tnums@.len(), results.len()),
                        ),
                        None => None,
                    },
                    usage_date(line),
                )
            },
        texts(plan.unique_tnums@) == first_occurrences(
            sheet_data(content).map_values(|l: Seq<char>| row_tnum(l)),
        ),
        texts(plan.unique_tnums@).no_duplicates(),
        forall|t: Seq<char>|
            #[trigger] texts(plan.unique_tnums@).contains(t) <==> exists|k: int|
                0 <= k < sheet_data(content).len() && row_tnum(#[trigger] sheet_data(content)[k])
                    == Some(t),
        lines_of(content).len() > 0 ==> lines_of(r.header@ + ",登録状況\n"@ + rows_csv(r.rows@))
            == seq![lines_of(content)[0] + ",登録状況"@] + r.rows@.map_values(
            |row: HistoryRow| checked_line(row),
        ),
{
    let ls = lines_of(content);
    let data = sheet_data(content);
    let ts = data.map_values(|l: Seq<char>| row_tnum(l));
    assert(opt_texts(plan.row_tnums@) == ts);
    assert(texts(plan.data_lines@) == data);
    assert(plan.row_tnums@.len() == data.len());
    assert(plan.data_lines@.len() == data.len());
    assert forall|k: int| 0 <= k < r.rows@.len() implies {
        let row = #[trigger] r.rows@[k];
        &&& row.raw_line@ == data[k]
        &&& opt_text(row.t_number) == row_tnum(data[k])
    } by {
        assert(texts(plan.data_lines@)[k] == plan.data_lines@[k]@);
        assert(opt_texts(plan.row_tnums@)[k] == opt_text(plan.row_tnums@[k]));
    }
    law_each_number_looked_up_once(ts);
    assert forall|t: Seq<char>|
        #[trigger] texts(plan.unique_tnums@).contains(t) <==> (exists|k: int|
            0 <= k < data.len() && row_tnum(#[trigger] data[k]) == Some(t)) by {
        if exists|i: int| 0 <= i < ts.len() && #[trigger] ts[i] == Some(t) {
            let i = choose|i: int| 0 <= i < ts.len() && #[trigger] ts[i] == Some(t);
            assert(row_tnum(data[i]) == Some(t));
        }
        if exists|k: int| 0 <= k < data.len() && row_tnum(#[trigger] data[k]) == Some(t) {
            let k = choose|k: int| 0 <= k < data.len() && row_tnum(#[trigger] data[k]) == Some(t);
            assert(ts[k] == Some(t));
        }
    }
    if ls.len() > 0 {
        lemma_lines_have_no_newline(content);
        assert forall|i: int| 0 <= i < r.header@.len() implies r.header@[i] != '\n' by {
            assert(ls[0][i] != '\n');
        }
        assert forall|q: int| 0 <= q < r.rows@.len() implies single_line(
            #[trigger] r.rows@[q].raw_line@,
        ) by {
            assert forall|i: int| 0 <= i < r.rows@[q].raw_line@.len() implies r.rows@[q].raw_line@[i]
                != '\n' by {
                assert(r.rows@[q].raw_line@ == data[q]);
                assert(data[q] == ls[q + 1]);
                assert(ls[q + 1][i] != '\n');
            }
        }
        law_checked_sheet_reads_back(r.header@, r.rows@);
    }
}

/// The counts of a checked sheet and the numbers it reports.
#[derive(Debug)]
pub struct HistorySummary {
    pub total: usize,
    pub registered: usize,
    pub before_registration: usize,
    pub unregistered: usize,
    pub no_number: usize,
    pub errors: usize,
    /// The T-number of each unregistered row, in row order.
    pub unregistered_numbers: Vec<String>,
    /// The T-number of each row used before registration, in row order.
    pub before_registration_entries: Vec<String>,
}

/// The content of a [`HistorySummary`].
#[verifier::ext_equal]
pub struct SummaryFields {
    pub total: nat,
    pub registered: nat,
    pub before_registration: nat,
    pub unregistered: nat,
    pub no_number: nat,
    pub errors: nat,
    pub unregistered_numbers: Seq<Seq<char>>,
    pub before_registration_entries: Seq<Seq<char>>,
}

impl View for HistorySummary {
    type V = SummaryFields;

    open spec fn view(&self) -> SummaryFields {
        SummaryFields {
            total: self.total as nat,
            registered: self.registered as nat,
            before_registration: self.before_registration as nat,
            unregistered: self.unregistered as nat,
            no_number: self.no_number as nat,
            errors: self.errors as nat,
            unregistered_numbers: texts(self.unregistered_numbers@),
            before_registration_entries: texts(self.before_registration_entries@),
        }
    }
}

impl Default for HistorySummary {
    /// The summary of no rows: all counts zero, no numbers.
    fn default() -> (s: HistorySummary)
        ensures
            s@ == tally(Seq::empty()),
    {
        let s = HistorySummary {
            total: 0,
            registered: 0,
            before_registration: 0,
            unregistered: 0,
            no_number: 0,
            errors: 0,
            unregistered_numbers: Vec::new(),
            before_registration_entries: Vec::new(),
        };
        assert(s@ =~= tally(Seq::empty()));
        s
    }
}

/// The T-number of a row, or the empty text.
pub open spec fn number_or_empty(t: Option<String>) -> Seq<char> {
    match t {
        Some(s) => s@,
        None => Seq::empty(),
    }
}

/// The summary of `rows`: how many rows have each status, and the
/// T-numbers of the unregistered rows and of the rows used before
/// registration.
pub open spec fn tally(rows: Seq<HistoryRow>) -> SummaryFields
    decreases rows.len(),
{
    if rows.len() == 0 {
        SummaryFields {
            total: 0,
            registered: 0,
            before_registration: 0,
            unregistered: 0,
            no_number: 0,
            errors: 0,
            unregistered_numbers: Seq::empty(),
            before_registration_entries: Seq::empty(),
        }
    } else {
        let s = tally(rows.drop_last());
        let row = rows.last();
        let s = SummaryFields { total: s.total + 1, ..s };
        match row.status {
            RegistrationStatus::Registered => SummaryFields { registered: s.registered + 1, ..s },
            RegistrationStatus::BeforeRegistration => SummaryFields {
                before_registration: s.before_registration + 1,
                before_registration_entries: s.before_registration_entries.push(
                    number_or_empty(row.t_number),
                ),
                ..s
            },
            RegistrationStatus::Unregistered => SummaryFields {
                unregistered: s.unregistered + 1,
                unregistered_numbers: s.unregistered_numbers.push(number_or_empty(row.t_number)),
                ..s
            },
            RegistrationStatus::NoNumber => SummaryFields { no_number: s.no_number + 1, ..s },
            RegistrationStatus::Error(_) => SummaryFields { errors: s.errors + 1, ..s },
        }
    }
}

/// Every row is counted once: the counts of the statuses add up to the
/// number of rows, and one T-number is reported per unregistered row and
/// per row used before registration.
pub proof fn law_summary_counts_every_row(rows: Seq<HistoryRow>)
    ensures
        tally(rows).total == rows.len(),
        tally(rows).total == tally(rows).registered + tally(rows).before_registration
            + tally(rows).unregistered + tally(rows).no_number + tally(rows).errors,
        tally(rows).unregistered_numbers.len() == tally(rows).unregistered,
        tally(rows).before_registration_entries.len() == tally(rows).before_registration,
    decreases rows.len(),
{
    if rows.len() > 0 {
        law_summary_counts_every_row(rows.drop_last());
    }
}

/// The rows of `rows` with a status of the given kind, in row order.
pub open spec fn rows_with(rows: Seq<HistoryRow>, kind: spec_fn(RegistrationStatus) -> bool) -> Seq<
    HistoryRow,
> {
    rows.filter(|r: HistoryRow| kind(r.status))
}

/// The T-numbers of `rows`, in order, the empty text for a row without one.
pub open spec fn numbers_of(rows: Seq<HistoryRow>) -> Seq<Seq<char>> {
    rows.map_values(|r: HistoryRow| number_or_empty(r.t_number))
}

proof fn lemma_rows_with_push(
    rows: Seq<HistoryRow>,
    kind: spec_fn(RegistrationStatus) -> bool,
)
    requires
        rows.len() > 0,
    ensures
        rows_with(rows, kind) == if kind(rows.last().status) {
            rows_with(rows.drop_last(), kind).push(rows.last())
        } else {
            rows_with(rows.drop_last(), kind)
        },
{
    reveal(Seq::filter);
}

proof fn lemma_numbers_of_push(rows: Seq<HistoryRow>, row: HistoryRow)
    ensures
        numbers_of(rows.push(row)) == numbers_of(rows).push(number_or_empty(row.t_number)),
{
    assert(numbers_of(rows.push(row)) =~= numbers_of(rows).push(number_or_empty(row.t_number)));
}

/// The summary counts each status by its rows, and lists the T-number of
/// every unregistered row and of every row used before registration, one
/// per row, in row order.
pub proof fn law_summary_lists_rows_in_order(rows: Seq<HistoryRow>)
    ensures
        tally(rows).unregistered_numbers == numbers_of(
            rows_with(rows, |s: RegistrationStatus| s is Unregistered),
        ),
        tally(rows).before_registration_entries == numbers_of(
            rows_with(rows, |s: RegistrationStatus| s is BeforeRegistration),
        ),
        tally(rows).registered == rows_with(rows, |s: RegistrationStatus| s is Registered).len(),
        tally(rows).before_registration == rows_with(
            rows,
            |s: RegistrationStatus| s is BeforeRegistration,
        ).len(),
        tally(rows).unregistered == rows_with(rows, |s: RegistrationStatus| s is Unregistered).len(),
        tally(rows).no_number == rows_with(rows, |s: RegistrationStatus| s is NoNumber).len(),
        tally(rows).errors == rows_with(rows, |s: RegistrationStatus| s is Error).len(),
    decreases rows.len(),
{
    let un = |s: RegistrationStatus| s is Unregistered;
    let be = |s: RegistrationStatus| s is BeforeRegistration;
    let re = |s: RegistrationStatus| s is Registered;
    let no = |s: RegistrationStatus| s is NoNumber;
    let er = |s: RegistrationStatus| s is Error;
    if rows.len() == 0 {
        reveal(Seq::filter);
        assert(numbers_of(Seq::<HistoryRow>::empty()) =~= Seq::<Seq<char>>::empty());
    } else {
        let p = rows.drop_last();
        law_summary_lists_rows_in_order(p);
        lemma_rows_with_push(rows, un);
        lemma_rows_with_push(rows, be);
        lemma_rows_with_push(rows, re);
        lemma_rows_with_push(rows, no);
        lemma_rows_with_push(rows, er);
        lemma_numbers_of_push(rows_with(p, un), rows.last());
        lemma_numbers_of_push(rows_with(p, be), rows.last());
    }
}

impl CheckHistoryResult {
    /// The annotated sheet: the header with a `登録状況` column added, then
    /// each row followed by its status label, every line ending in `\n`.
    pub fn to_csv(&self) -> (out: String)
        ensures
            out@ == self.header@ + ",登録状況\n"@ + rows_csv(self.rows@),
    {
        let mut out = self.header.clone();
        out.append(",登録状況\n");
        let ghost head = out@;
        let mut i: usize = 0;
        while i < self.rows.len()
            invariant
                0 <= i <= self.rows@.len(),
                head == self.header@ + ",登録状況\n"@,
                out@ == head + rows_csv(self.rows@.take(i as int)),
            decreases self.rows@.len() - i,
        {
            let row = &self.rows[i];
            out.append(row.raw_line.as_str());
            out.append(",");
            out.append(row.status.label());
            out.append("\n");
            assert(self.rows@.take(i + 1).drop_last() == self.rows@.take(i as int));
            assert(self.rows@.take(i + 1).last() == *row);
            assert(out@ == head + rows_csv(self.rows@.take(i + 1)));
            i += 1;
        }
        assert(self.rows@.take(i as int) == self.rows@);
        out
    }

    /// Counts the rows by status.
    pub fn summary(&self) -> (s: HistorySummary)
        ensures
            s@ == tally(self.rows@),
    {
        let mut s = HistorySummary::default();
        assert(self.rows@.take(0) =~= Seq::<HistoryRow>::empty());
        assert(texts(s.unregistered_numbers@) =~= Seq::<Seq<char>>::empty());
        assert(texts(s.before_registration_entries@) =~= Seq::<Seq<char>>::empty());
        let mut i: usize = 0;
        while i < self.rows.len()
            invariant
                0 <= i <= self.rows@.len(),
                s.registered == tally(self.rows@.take(i as int)).registered,
                s.before_registration == tally(self.rows@.take(i as int)).before_registration,
                s.unregistered == tally(self.rows@.take(i as int)).unregistered,
                s.no_number == tally(self.rows@.take(i as int)).no_number,
                s.errors == tally(self.rows@.take(i as int)).errors,
                texts(s.unregistered_numbers@) == tally(
                    self.rows@.take(i as int),
                ).unregistered_numbers,
                texts(s.before_registration_entries@) == tally(
                    self.rows@.take(i as int),
                ).before_registration_entries,
                tally(self.rows@.take(i as int)).total == i,
                tally(self.rows@.take(i as int)).registered + tally(
                    self.rows@.take(i as int),
                ).before_registration + tally(self.rows@.take(i as int)).unregistered + tally(
                    self.rows@.take(i as int),
                ).no_number + tally(self.rows@.take(i as int)).errors == i,
            decreases self.rows@.len() - i,
        {
            proof {
                law_summary_counts_every_row(self.rows@.take(i as int));
            }
            let row = &self.rows[i];
            assert(self.rows@.take(i + 1).drop_last() == self.rows@.take(i as int));
            assert(self.rows@.take(i + 1).last() == *row);
            match &row.status {
                RegistrationStatus::Registered => {
                    s.registered += 1;
                },
                RegistrationStatus::BeforeRegistration => {
                    s.before_registration += 1;
                    let t = match &row.t_number {
                        Some(t) => t.clone(),
                        None => String::new(),
                    };
                    s.before_registration_entries.push(t);
                },
                RegistrationStatus::Unregistered => {
                    s.unregistered += 1;
                    let t = match &row.t_number {
                        Some(t) => t.clone(),
                        None => String::new(),
                    };
                    s.unregistered_numbers.push(t);
                },
                RegistrationStatus::NoNumber => {
                    s.no_number += 1;
                },
                RegistrationStatus::Error(_) => {
                    s.errors += 1;
                },
            }
            i += 1;
        }
        s.total = self.rows.len();
        assert(self.rows@.take(i as int) == self.rows@);
        assert(s@ =~= tally(self.rows@));
        s
    }
}

} // verus!
