//! Reading dates: `2025/01/02` from the history sheet and Japanese-era dates
//! such as `令和5年10月1日` from the registry.

use vstd::prelude::*;

use crate::date::SimpleDate;
use crate::text::{
    lemma_find_char, chars_of, decimal, find_char, find_in, is_digit, lemma_decimal,
    lemma_split_scan_append, lemma_split_scan_sep, law_parse_u32_reads_decimal,
    law_parse_u32_reads_padded, zeros, parse_u32,
    parse_u32_spec, range_equals, split_char, split_ranges, split_scan, starts_with, trim,
    trim_range, trim_start,
};

verus! {

/// The date that a `year/month/day` text denotes: after trimming, exactly
/// three `/`-separated parts, each accepted by `u32::from_str`.
pub open spec fn csv_date_spec(s: Seq<char>) -> Option<SimpleDate> {
    let parts = split_char(trim(s), '/');
    if parts.len() != 3 {
        None
    } else {
        match (parse_u32_spec(parts[0]), parse_u32_spec(parts[1]), parse_u32_spec(parts[2])) {
            (Some(y), Some(m), Some(d)) => Some(SimpleDate(y, m, d)),
            _ => None,
        }
    }
}

/// A history-sheet date written as `year/month/day` in decimal, each number
/// with any number of leading zeros (as `2025/01/02`), reads back as the
/// same date.
pub proof fn law_csv_date_reads_back(y: u32, m: u32, d: u32, zy: nat, zm: nat, zd: nat)
    ensures
        csv_date_spec(zeros(zy) + decimal(y as nat) + seq!['/'] + zeros(zm) + decimal(m as nat)
            + seq!['/'] + zeros(zd) + decimal(d as nat)) == Some(SimpleDate(y, m, d)),
{
    let dy = zeros(zy) + decimal(y as nat);
    let dm = zeros(zm) + decimal(m as nat);
    let dd = zeros(zd) + decimal(d as nat);
    law_parse_u32_reads_padded(y, zy);
    law_parse_u32_reads_padded(m, zm);
    law_parse_u32_reads_padded(d, zd);
    lemma_decimal(d as nat);
    assert forall|i: int| 0 <= i < dy.len() implies dy[i] != '/' by {
        assert(is_digit(dy[i]));
    }
    assert forall|i: int| 0 <= i < dm.len() implies dm[i] != '/' by {
        assert(is_digit(dm[i]));
    }
    assert forall|i: int| 0 <= i < dd.len() implies dd[i] != '/' by {
        assert(is_digit(dd[i]));
    }
    let s = dy + seq!['/'] + dm + seq!['/'] + dd;
    assert(s == zeros(zy) + decimal(y as nat) + seq!['/'] + zeros(zm) + decimal(m as nat)
        + seq!['/'] + zeros(zd) + decimal(d as nat));
    let e = Seq::<char>::empty();
    assert(is_digit(dy[0]));
    assert(s[0] == dy[0]);
    assert(s.last() == dd.last());
    assert(is_digit(dd[dd.len() - 1]));
    assert(trim_start(s) == s);
    assert(trim(s) == s);
    assert(split_scan(e, '/') == (Seq::<Seq<char>>::empty(), e));
    lemma_split_scan_append(e, dy, '/');
    assert(e + dy == dy);
    lemma_split_scan_sep(dy, '/');
    let s1 = dy.push('/');
    lemma_split_scan_append(s1, dm, '/');
    let s2 = (s1 + dm).push('/');
    lemma_split_scan_sep(s1 + dm, '/');
    lemma_split_scan_append(s2, dd, '/');
    assert(s2 + dd == s);
    assert(split_char(s, '/') == seq![dy, dm, dd]);
}

/// The Gregorian year just before the first year of the era that `t`
/// starts with, and the length of the era's name.
pub open spec fn era_offset(t: Seq<char>) -> Option<(u32, int)> {
    if starts_with(t, "令和"@) {
        Some((2018u32, "令和"@.len() as int))
    } else if starts_with(t, "平成"@) {
        Some((1988u32, "平成"@.len() as int))
    } else if starts_with(t, "昭和"@) {
        Some((1925u32, "昭和"@.len() as int))
    } else if starts_with(t, "大正"@) {
        Some((1911u32, "大正"@.len() as int))
    } else {
        None
    }
}

/// The era year, month and day of `<y>年<m>月<d>日` (what follows the era
/// name): the first `年`, then `月`, then `日` delimit the numbers, and each
/// is trimmed and read by `u32::from_str`.
pub open spec fn era_date_numbers(r0: Seq<char>) -> Option<(u32, u32, u32)> {
    match find_char(r0, '年') {
        None => None,
        Some(yp) => {
            let r1 = r0.skip(yp + 1);
            match find_char(r1, '月') {
                None => None,
                Some(mp) => {
                    let r2 = r1.skip(mp + 1);
                    match find_char(r2, '日') {
                        None => None,
                        Some(dp) => match (
                            parse_u32_spec(trim(r0.take(yp))),
                            parse_u32_spec(trim(r1.take(mp))),
                            parse_u32_spec(trim(r2.take(dp))),
                        ) {
                            (Some(y), Some(m), Some(d)) => Some((y, m, d)),
                            _ => None,
                        },
                    }
                },
            }
        },
    }
}

/// The numbers of a Japanese-era date `<era><y>年<m>月<d>日`: the era's
/// offset plus the era year, the month and the day. The text is trimmed and
/// white space may follow the era name.
pub open spec fn japanese_date_spec(s: Seq<char>) -> Option<(int, u32, u32)> {
    let t = trim(s);
    match era_offset(t) {
        None => None,
        Some((offset, era_len)) => match era_date_numbers(trim_start(t.skip(era_len))) {
            Some((y, m, d)) => Some((offset + y, m, d)),
            None => None,
        },
    }
}

/// The era that `v[a..b]` starts with: its offset and the length of its name.
fn era_prefix(v: &Vec<char>, a: usize, b: usize) -> (r: Option<(u32, usize)>)
    requires
        a <= b <= v@.len(),
    ensures
        match r {
            Some((o, k)) => a + k <= b && era_offset(v@.subrange(a as int, b as int)) == Some(
                (o, k as int),
            ),
            None => era_offset(v@.subrange(a as int, b as int)) is None,
        },
{
    let ghost t = v@.subrange(a as int, b as int);
    let reiwa = chars_of("令和");
    let heisei = chars_of("平成");
    let showa = chars_of("昭和");
    let taisho = chars_of("大正");
    assert(reiwa.len() <= b - a ==> t.take(reiwa@.len() as int) == v@.subrange(
        a as int,
        a + reiwa@.len(),
    ));
    assert(heisei.len() <= b - a ==> t.take(heisei@.len() as int) == v@.subrange(
        a as int,
        a + heisei@.len(),
    ));
    assert(showa.len() <= b - a ==> t.take(showa@.len() as int) == v@.subrange(
        a as int,
        a + showa@.len(),
    ));
    assert(taisho.len() <= b - a ==> t.take(taisho@.len() as int) == v@.subrange(
        a as int,
        a + taisho@.len(),
    ));
    if reiwa.len() <= b - a && range_equals(v, a, a + reiwa.len(), &reiwa) {
        Some((2018, reiwa.len()))
    } else if heisei.len() <= b - a && range_equals(v, a, a + heisei.len(), &heisei) {
        Some((1988, heisei.len()))
    } else if showa.len() <= b - a && range_equals(v, a, a + showa.len(), &showa) {
        Some((1925, showa.len()))
    } else if taisho.len() <= b - a && range_equals(v, a, a + taisho.len(), &taisho) {
        Some((1911, taisho.len()))
    } else {
        None
    }
}

/// The era year, month and day in `v[r0..b]`.
fn era_date_numbers_in(v: &Vec<char>, r0: usize, b: usize) -> (r: Option<(u32, u32, u32)>)
    requires
        r0 <= b <= v@.len(),
    ensures
        r == era_date_numbers(v@.subrange(r0 as int, b as int)),
{
    let ghost s0 = v@.subrange(r0 as int, b as int);
    let yp = match find_in(v, r0, b, '年') {
        Some(k) => k,
        None => return None,
    };
    assert(s0.take(yp - r0) == v@.subrange(r0 as int, yp as int));
    assert(s0.skip(yp - r0 + 1) == v@.subrange(yp + 1, b as int));
    let r1 = yp + 1;
    let ghost s1 = v@.subrange(r1 as int, b as int);
    let mp = match find_in(v, r1, b, '月') {
        Some(k) => k,
        None => return None,
    };
    assert(s1.take(mp - r1) == v@.subrange(r1 as int, mp as int));
    assert(s1.skip(mp - r1 + 1) == v@.subrange(mp + 1, b as int));
    let r2 = mp + 1;
    let ghost s2 = v@.subrange(r2 as int, b as int);
    let dp = match find_in(v, r2, b, '日') {
        Some(k) => k,
        None => return None,
    };
    assert(s2.take(dp - r2) == v@.subrange(r2 as int, dp as int));
    let y = parse_trimmed_u32(v, r0, yp);
    let m = parse_trimmed_u32(v, r1, mp);
    let d = parse_trimmed_u32(v, r2, dp);
    match (y, m, d) {
        (Some(y), Some(m), Some(d)) => Some((y, m, d)),
        _ => None,
    }
}

/// Splitting at the first occurrence of a marker that `p` does not contain.
proof fn lemma_split_at_marker(p: Seq<char>, marker: char, rest: Seq<char>)
    requires
        !p.contains(marker),
    ensures
        ({
            let r = p + seq![marker] + rest;
            &&& find_char(r, marker) == Some(p.len() as int)
            &&& r.take(p.len() as int) == p
            &&& r.skip(p.len() as int + 1) == rest
        }),
{
    let r = p + seq![marker] + rest;
    assert forall|j: int| 0 <= j < p.len() implies #[trigger] r[j] != marker by {
        assert(r[j] == p[j]);
    }
    lemma_find_char(r, marker, p.len() as int);
    assert(r.take(p.len() as int) == p);
    assert(r.skip(p.len() as int + 1) == rest);
}

/// The four era names and their offsets.
pub open spec fn era_named(era: Seq<char>, offset: u32) -> bool {
    ||| era == "令和"@ && offset == 2018
    ||| era == "平成"@ && offset == 1988
    ||| era == "昭和"@ && offset == 1925
    ||| era == "大正"@ && offset == 1911
}

proof fn lemma_era_offset(era: Seq<char>, offset: u32, x: Seq<char>)
    requires
        era_named(era, offset),
    ensures
        era_offset(era + x) == Some((offset, 2int)),
        (era + x).skip(2) == x,
{
    reveal_strlit("令和");
    reveal_strlit("平成");
    reveal_strlit("昭和");
    reveal_strlit("大正");
    let t = era + x;
    assert(t.take(2) == era);
    assert(t.skip(2) == x);
    assert(t[0] == era[0]);
}

/// How a Japanese-era date is read: after trimming, the era name `E` comes
/// first; after the white space that follows it, the text up to the first
/// `年` is the era year, up to the next `月` the month, up to the next `日`
/// the day, each trimmed and read by `u32::from_str`, and whatever follows
/// the `日` is ignored. The date's year is the era's offset (Reiwa 2018,
/// Heisei 1988, Showa 1925, Taisho 1911) plus the era year.
pub proof fn law_japanese_date_parts(
    s: Seq<char>,
    era: Seq<char>,
    offset: u32,
    x: Seq<char>,
    a: Seq<char>,
    b: Seq<char>,
    c: Seq<char>,
    tail: Seq<char>,
    n: u32,
    m: u32,
    d: u32,
)
    requires
        era_named(era, offset),
        trim(s) == era + x,
        trim_start(x) == a + "年"@ + b + "月"@ + c + "日"@ + tail,
        !a.contains('年'),
        !b.contains('月'),
        !c.contains('日'),
        parse_u32_spec(trim(a)) == Some(n),
        parse_u32_spec(trim(b)) == Some(m),
        parse_u32_spec(trim(c)) == Some(d),
    ensures
        japanese_date_spec(s) == Some((offset + n, m, d)),
{
    reveal_strlit("年");
    reveal_strlit("月");
    reveal_strlit("日");
    lemma_era_offset(era, offset, x);
    let r2 = c + seq!['日'] + tail;
    let r1 = b + seq!['月'] + r2;
    let r0 = a + seq!['年'] + r1;
    assert(a + "年"@ + b + "月"@ + c + "日"@ + tail == r0);
    lemma_split_at_marker(a, '年', r1);
    lemma_split_at_marker(b, '月', r2);
    lemma_split_at_marker(c, '日', tail);
}

proof fn lemma_numeral_has_no(n: u32, marker: char)
    requires
        !is_digit(marker),
    ensures
        !decimal(n as nat).contains(marker),
        parse_u32_spec(trim(decimal(n as nat))) == Some(n),
{
    lemma_decimal(n as nat);
    law_parse_u32_reads_decimal(n);
    let dn = decimal(n as nat);
    assert forall|j: int| 0 <= j < dn.len() implies #[trigger] dn[j] != marker by {
        assert(is_digit(dn[j]));
    }
}

/// A Japanese-era date written as `<era><y>年<m>月<d>日` in decimal reads back
/// as the era's offset plus the era year, the month and the day.
pub proof fn law_japanese_date_reads_back(era: Seq<char>, offset: u32, y: u32, m: u32, d: u32)
    requires
        era_named(era, offset),
    ensures
        japanese_date_spec(era + decimal(y as nat) + "年"@ + decimal(m as nat) + "月"@ + decimal(
            d as nat,
        ) + "日"@) == Some((offset + y, m, d)),
{
    reveal_strlit("令和");
    reveal_strlit("平成");
    reveal_strlit("昭和");
    reveal_strlit("大正");
    reveal_strlit("年");
    reveal_strlit("日");
    let dy = decimal(y as nat);
    let x = dy + "年"@ + decimal(m as nat) + "月"@ + decimal(d as nat) + "日"@;
    let s = era + x;
    assert(era + dy + "年"@ + decimal(m as nat) + "月"@ + decimal(d as nat) + "日"@ == s);
    lemma_decimal(y as nat);
    assert(is_digit(dy[0]));
    assert(x[0] == dy[0]);
    assert(trim_start(x) == x);
    assert(s[0] == era[0]);
    assert(trim_start(s) == s);
    assert(s.last() == '日');
    assert(trim(s) == s);
    lemma_numeral_has_no(y, '年');
    lemma_numeral_has_no(m, '月');
    lemma_numeral_has_no(d, '日');
    assert(x == decimal(y as nat) + "年"@ + decimal(m as nat) + "月"@ + decimal(d as nat) + "日"@
        + Seq::<char>::empty());
    law_japanese_date_parts(
        s,
        era,
        offset,
        x,
        decimal(y as nat),
        decimal(m as nat),
        decimal(d as nat),
        Seq::<char>::empty(),
        y,
        m,
        d,
    );
}

/// Parses `v[lo..hi]` after trimming it.
fn parse_trimmed_u32(v: &Vec<char>, lo: usize, hi: usize) -> (r: Option<u32>)
    requires
        lo <= hi <= v@.len(),
    ensures
        r == parse_u32_spec(trim(v@.subrange(lo as int, hi as int))),
{
    let (a, b) = trim_range(v, lo, hi);
    parse_u32(v, a, b)
}

/// The era offset, era year, month and day of a Japanese-era date.
fn japanese_date_parts(s: &str) -> (r: Option<(u32, u32, u32, u32)>)
    ensures
        match r {
            Some((o, y, m, d)) => japanese_date_spec(s@) == Some((o + y, m, d)),
            None => japanese_date_spec(s@) is None,
        },
{
    let v = chars_of(s);
    let n = v.len();
    let (a, b) = trim_range(&v, 0, n);
    assert(v@.subrange(0, n as int) == v@);
    let ghost t = v@.subrange(a as int, b as int);
    let (offset, era_len) = match era_prefix(&v, a, b) {
        Some(e) => e,
        None => return None,
    };
    let rest = a + era_len;
    assert(t.skip(era_len as int) == v@.subrange(rest as int, b as int));
    let (r0, _) = trim_range(&v, rest, b);
    match era_date_numbers_in(&v, r0, b) {
        Some((y, m, d)) => Some((offset, y, m, d)),
        None => None,
    }
}

impl SimpleDate {
    /// Parses a history-sheet date such as `2025/01/02`.
    pub fn from_csv_date(s: &str) -> (r: Option<SimpleDate>)
        ensures
            r == csv_date_spec(s@),
    {
        let v = chars_of(s);
        let (a, b) = trim_range(&v, 0, v.len());
        assert(v@.subrange(0, v@.len() as int) == v@);
        let parts = split_ranges(&v, a, b, '/');
        if parts.len() != 3 {
            return None;
        }
        let y = parse_u32(&v, parts[0].0, parts[0].1);
        let m = parse_u32(&v, parts[1].0, parts[1].1);
        let d = parse_u32(&v, parts[2].0, parts[2].1);
        match (y, m, d) {
            (Some(y), Some(m), Some(d)) => Some(SimpleDate(y, m, d)),
            _ => None,
        }
    }

    /// Parses a Japanese-era date such as `令和5年10月1日` (Reiwa, Heisei,
    /// Showa or Taisho).
    pub fn from_japanese_date(s: &str) -> (r: Option<SimpleDate>)
        requires
            japanese_date_spec(s@) matches Some((y, _, _)) ==> y <= u32::MAX,
        ensures
            r == match japanese_date_spec(s@) {
                Some((y, m, d)) => Some(SimpleDate(y as u32, m, d)),
                None => None,
            },
    {
        match japanese_date_parts(s) {
            Some((offset, y, m, d)) => Some(SimpleDate(offset + y, m, d)),
            None => None,
        }
    }

    /// Whether the year of a Japanese-era date fits a `u32`, which
    /// `from_japanese_date` needs; true for text that is no such date.
    pub fn japanese_date_in_range(s: &str) -> (b: bool)
        ensures
            b <==> (japanese_date_spec(s@) matches Some((y, _, _)) ==> y <= u32::MAX),
    {
        match japanese_date_parts(s) {
            Some((offset, y, _, _)) => y <= u32::MAX - offset,
            None => true,
        }
    }
}

} // verus!
