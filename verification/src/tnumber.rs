//! Registration numbers ("T-numbers"): a `T` followed by thirteen digits.

use vstd::prelude::*;

use crate::text::{
    all_digits, chars_of, is_digit, is_white_space, lemma_line_scan_append,
    lemma_line_scan_newline, line_scan, lines_of, push_char, range_equals, split_lines,
    string_from, texts, trim, trim_end, trim_start, trim_str,
};

verus! {

/// Why a lookup did not produce registration information.
#[derive(Debug)]
pub enum InvoiceLookupError {
    /// The argument is not a T-number; the text says what was given.
    InvalidFormat(String),
    /// The request to the registry failed; the text is the transport's message.
    HttpError(String),
    /// The registry's page could not be read.
    ParseError,
}

impl InvoiceLookupError {
    /// The message that describes the error.
    pub open spec fn message_spec(&self) -> Seq<char> {
        match self {
            InvoiceLookupError::InvalidFormat(s) => "Invalid T-number format: "@ + s@,
            InvoiceLookupError::HttpError(s) => "HTTP request failed: "@ + s@,
            InvoiceLookupError::ParseError => "Failed to parse HTML response"@,
        }
    }

    /// The human-readable message for this error.
    pub fn message(&self) -> (m: String)
        ensures
            m@ == self.message_spec(),
    {
        match self {
            InvoiceLookupError::InvalidFormat(s) => {
                let mut m = String::from_str("Invalid T-number format: ");
                m.append(s.as_str());
                m
            },
            InvoiceLookupError::HttpError(s) => {
                let mut m = String::from_str("HTTP request failed: ");
                m.append(s.as_str());
                m
            },
            InvoiceLookupError::ParseError => String::from_str("Failed to parse HTML response"),
        }
    }
}

/// The part of a T-number after an optional leading `T`.
pub open spec fn t_number_digits(s: Seq<char>) -> Seq<char> {
    if s.len() > 0 && s[0] == 'T' {
        s.drop_first()
    } else {
        s
    }
}

/// Exactly thirteen ASCII digits.
pub open spec fn is_registration_digits(d: Seq<char>) -> bool {
    d.len() == 13 && all_digits(d)
}

/// The message of the error for a malformed T-number.
pub open spec fn invalid_format_message(s: Seq<char>) -> Seq<char> {
    "Expected T + 13 digits, got: "@ + s
}

/// Checks a T-number and returns its thirteen digits.
///
/// A leading `T` is optional; what follows must be exactly thirteen ASCII
/// digits.
pub fn parse_t_number(t_number: &str) -> (r: Result<&str, InvoiceLookupError>)
    ensures
        match r {
            Ok(d) => is_registration_digits(t_number_digits(t_number@)) && d@ == t_number_digits(
                t_number@,
            ),
            Err(InvoiceLookupError::InvalidFormat(m)) => !is_registration_digits(
                t_number_digits(t_number@),
            ) && m@ == invalid_format_message(t_number@),
            Err(_) => false,
        },
{
    let v = chars_of(t_number);
    let n = v.len();
    let start: usize = if n > 0 && v[0] == 'T' {
        1
    } else {
        0
    };
    assert(v@.subrange(start as int, n as int) == t_number_digits(t_number@));
    let ok = n - start == 13 && all_digits_in(&v, start, n);
    if !ok {
        let mut m = String::from_str("Expected T + 13 digits, got: ");
        m.append(t_number);
        return Err(InvoiceLookupError::InvalidFormat(m));
    }
    Ok(t_number.substring_char(start, n))
}

/// Whether `v[lo..hi]` consists of ASCII digits only.
pub fn all_digits_in(v: &Vec<char>, lo: usize, hi: usize) -> (b: bool)
    requires
        lo <= hi <= v@.len(),
    ensures
        b == all_digits(v@.subrange(lo as int, hi as int)),
{
    let mut i = lo;
    while i < hi
        invariant
            lo <= i <= hi <= v@.len(),
            forall|j: int| lo <= j < i ==> is_digit(#[trigger] v@[j]),
        decreases hi - i,
    {
        if !('0' <= v[i] && v[i] <= '9') {
            assert(v@.subrange(lo as int, hi as int)[i - lo] == v@[i as int]);
            return false;
        }
        i += 1;
    }
    assert forall|j: int| 0 <= j < hi - lo implies is_digit(
        #[trigger] v@.subrange(lo as int, hi as int)[j],
    ) by {
        assert(v@.subrange(lo as int, hi as int)[j] == v@[lo + j]);
    }
    true
}


/// The normal form of a T-number cell: `T` and the thirteen digits, or
/// nothing when the cell is empty, reads `なし`, or is not a T-number.
pub open spec fn normalize_tnum_spec(raw: Seq<char>) -> Option<Seq<char>> {
    if raw.len() == 0 || raw == "なし"@ {
        None
    } else if is_registration_digits(t_number_digits(raw)) {
        Some(seq!['T'] + t_number_digits(raw))
    } else {
        None
    }
}

/// A cell that holds no T-number: empty, or `なし`.
pub open spec fn is_blank_cell(cell: Seq<char>) -> bool {
    cell.len() == 0 || cell == "なし"@
}

/// Whether the cell holds no T-number.
pub fn blank_cell(cell: &str) -> (b: bool)
    ensures
        b == is_blank_cell(cell@),
{
    let v = chars_of(cell);
    let none_word = chars_of("なし");
    assert(v@.subrange(0, v@.len() as int) == v@);
    v.len() == 0 || range_equals(&v, 0, v.len(), &none_word)
}

/// Normalises a T-number cell to `T` followed by its thirteen digits.
pub fn normalize_tnum(raw: &str) -> (r: Option<String>)
    ensures
        match r {
            Some(t) => normalize_tnum_spec(raw@) == Some(t@),
            None => normalize_tnum_spec(raw@) is None,
        },
{
    let v = chars_of(raw);
    let none_word = chars_of("なし");
    let n = v.len();
    if n == 0 || range_equals(&v, 0, n, &none_word) {
        assert(v@.subrange(0, n as int) == v@);
        return None;
    }
    assert(v@.subrange(0, n as int) == v@);
    let start: usize = if v[0] == 'T' {
        1
    } else {
        0
    };
    assert(v@.subrange(start as int, n as int) == t_number_digits(raw@));
    if n - start == 13 && all_digits_in(&v, start, n) {
        let mut t = String::new();
        push_char(&mut t, 'T');
        let d = string_from(&v, start, n);
        t.append(d.as_str());
        Some(t)
    } else {
        None
    }
}

/// The registry's detail page for a registration number.
pub open spec fn detail_url_spec(digits: Seq<char>) -> Seq<char> {
    "https://www.invoice-kohyo.nta.go.jp/regno-search/detail"@ + "?selRegNo="@ + digits
}

/// The address of the registry's detail page for `digits`.
pub fn detail_url(digits: &str) -> (u: String)
    ensures
        u@ == detail_url_spec(digits@),
{
    let mut u = String::from_str("https://www.invoice-kohyo.nta.go.jp/regno-search/detail");
    u.append("?selRegNo=");
    u.append(digits);
    u
}

/// The non-empty trimmed lines of `lines`, in order.
pub open spec fn nonblank_trimmed(lines: Seq<Seq<char>>) -> Seq<Seq<char>>
    decreases lines.len(),
{
    if lines.len() == 0 {
        Seq::empty()
    } else {
        let rest = nonblank_trimmed(lines.drop_last());
        if trim(lines.last()).len() == 0 {
            rest
        } else {
            rest.push(trim(lines.last()))
        }
    }
}

/// The number list keeps every line that is not blank, trimmed, in order,
/// and nothing else.
pub proof fn law_number_list_keeps_nonblank_lines(lines: Seq<Seq<char>>)
    ensures
        nonblank_trimmed(lines) == lines.filter(|l: Seq<char>| trim(l).len() > 0).map_values(
            |l: Seq<char>| trim(l),
        ),
    decreases lines.len(),
{
    reveal(Seq::filter);
    if lines.len() == 0 {
        assert(lines.filter(|l: Seq<char>| trim(l).len() > 0).map_values(|l: Seq<char>| trim(l))
            =~= Seq::<Seq<char>>::empty());
    } else {
        let p = lines.drop_last();
        law_number_list_keeps_nonblank_lines(p);
        let f = p.filter(|l: Seq<char>| trim(l).len() > 0);
        assert(f.push(lines.last()).map_values(|l: Seq<char>| trim(l)) =~= f.map_values(
            |l: Seq<char>| trim(l),
        ).push(trim(lines.last())));
    }
}

/// A single line, with no line break and no white space at either end.
pub open spec fn bare_line(a: Seq<char>) -> bool {
    &&& a.len() > 0
    &&& !is_white_space(a[0])
    &&& !is_white_space(a.last())
    &&& forall|i: int| 0 <= i < a.len() ==> a[i] != '\n'
}

proof fn lemma_bare_line(a: Seq<char>)
    requires
        bare_line(a),
    ensures
        trim(a) == a,
        line_scan(a) == (Seq::<Seq<char>>::empty(), a),
{
    assert(trim_start(a) == a);
    assert(trim_end(a) == a);
    let e = Seq::<char>::empty();
    lemma_line_scan_append(e, a);
    assert(e + a == a);
    assert(line_scan(e) == (Seq::<Seq<char>>::empty(), e));
}

/// A file of two numbers, one per line, lists both, in order, whether or
/// not the file ends with a line break.
pub proof fn law_number_list_of_two_lines(a: Seq<char>, b: Seq<char>)
    requires
        bare_line(a),
        bare_line(b),
    ensures
        nonblank_trimmed(lines_of(a + seq!['\n'] + b)) == seq![a, b],
        nonblank_trimmed(lines_of(a + seq!['\n'] + b + seq!['\n'])) == seq![a, b],
{
    lemma_bare_line(a);
    lemma_bare_line(b);
    let e = Seq::<char>::empty();
    let a1 = a.push('\n');
    lemma_line_scan_newline(a);
    assert(a.last() != '\r');
    assert(line_scan(a1) == (seq![a], e));
    lemma_line_scan_append(a1, b);
    assert(a + seq!['\n'] + b == a1 + b);
    assert(e + b == b);
    assert(line_scan(a1 + b) == (seq![a], b));
    let ls = lines_of(a1 + b);
    assert(ls == seq![a, b]);
    assert(ls.drop_last() == seq![a]);
    assert(seq![a].drop_last() == Seq::<Seq<char>>::empty());
    lemma_line_scan_newline(a1 + b);
    assert(b.last() != '\r');
    assert(a + seq!['\n'] + b + seq!['\n'] == (a1 + b).push('\n'));
    assert(lines_of((a1 + b).push('\n')) == seq![a, b]);
    assert(nonblank_trimmed(Seq::<Seq<char>>::empty()) == Seq::<Seq<char>>::empty());
    assert(nonblank_trimmed(seq![a]) == seq![a]);
    assert(seq![a, b].last() == b);
    assert(nonblank_trimmed(seq![a, b]) == seq![a, b]);
}

/// The T-numbers listed in a file, one per line: each line trimmed, empty
/// lines skipped.
pub fn parse_number_list(content: &str) -> (r: Vec<String>)
    ensures
        texts(r@) == nonblank_trimmed(lines_of(content@)),
{
    let lines = split_lines(content);
    let mut r: Vec<String> = Vec::new();
    let ghost ls = lines_of(content@);
    let mut i: usize = 0;
    assert(ls.take(0) =~= Seq::<Seq<char>>::empty());
    assert(texts(r@) =~= Seq::<Seq<char>>::empty());
    while i < lines.len()
        invariant
            0 <= i <= lines@.len(),
            texts(lines@) == ls,
            texts(r@) == nonblank_trimmed(ls.take(i as int)),
        decreases lines@.len() - i,
    {
        let t = trim_str(lines[i].as_str());
        assert(ls[i as int] == lines@[i as int]@);
        assert(ls.take(i + 1).drop_last() == ls.take(i as int));
        if t.unicode_len() > 0 {
            r.push(String::from_str(t));
        }
        i += 1;
    }
    assert(ls.take(i as int) == ls);
    r
}

/// The word shown for a registration flag.
pub open spec fn registered_word(registered: bool) -> Seq<char> {
    if registered {
        "登録済"@
    } else {
        "未登録"@
    }
}

/// The word shown for a registration flag: `登録済` or `未登録`.
pub fn registered_label(registered: bool) -> (s: &'static str)
    ensures
        s@ == registered_word(registered),
{
    if registered {
        "登録済"
    } else {
        "未登録"
    }
}

/// The leading `T` of a T-number is optional: with or without it, the same
/// thirteen digits are accepted.
pub proof fn law_t_prefix_optional(d: Seq<char>)
    requires
        is_registration_digits(d),
    ensures
        t_number_digits(seq!['T'] + d) == d,
        t_number_digits(d) == d,
        is_registration_digits(t_number_digits(seq!['T'] + d)),
{
    assert((seq!['T'] + d).drop_first() == d);
    assert(is_digit(d[0]));
}

/// `parse_t_number` accepts exactly thirteen ASCII digits, or `T` followed
/// by thirteen ASCII digits.
pub proof fn law_t_number_shape(s: Seq<char>)
    ensures
        is_registration_digits(t_number_digits(s)) <==> (s.len() == 13 && forall|i: int|
            0 <= i < 13 ==> '0' <= #[trigger] s[i] <= '9') || (s.len() == 14 && s[0] == 'T'
            && forall|i: int| 1 <= i < 14 ==> '0' <= #[trigger] s[i] <= '9'),
{
    let d = t_number_digits(s);
    if s.len() > 0 && s[0] == 'T' {
        assert forall|i: int| 1 <= i < s.len() implies s[i] == d[i - 1] by {}
        if s.len() == 14 && (forall|i: int| 1 <= i < 14 ==> '0' <= #[trigger] s[i] <= '9') {
            assert forall|k: int| 0 <= k < d.len() implies is_digit(#[trigger] d[k]) by {
                assert(d[k] == s[k + 1]);
            }
        }
        if is_registration_digits(d) {
            assert forall|i: int| 1 <= i < 14 implies '0' <= #[trigger] s[i] <= '9' by {
                assert(is_digit(d[i - 1]));
            }
        }
    } else {
        if is_registration_digits(d) {
            assert forall|i: int| 0 <= i < 13 implies '0' <= #[trigger] s[i] <= '9' by {
                assert(is_digit(d[i]));
            }
        }
        if s.len() == 13 && (forall|i: int| 0 <= i < 13 ==> '0' <= #[trigger] s[i] <= '9') {
            assert forall|k: int| 0 <= k < d.len() implies is_digit(#[trigger] d[k]) by {
                assert('0' <= s[k] <= '9');
            }
        }
    }
}

/// A cell normalises exactly when `parse_t_number` accepts it, and then to
/// `T` followed by the digits that `parse_t_number` returns.
pub proof fn law_normalize_agrees_with_parse(raw: Seq<char>)
    ensures
        normalize_tnum_spec(raw) == if is_registration_digits(t_number_digits(raw)) {
            Some(seq!['T'] + t_number_digits(raw))
        } else {
            None::<Seq<char>>
        },
{
    reveal_strlit("なし");
    if raw == "なし"@ {
        assert(t_number_digits(raw).len() == 2);
    }
}

/// Normalising a normalised T-number changes nothing.
pub proof fn law_normalize_idempotent(raw: Seq<char>)
    ensures
        normalize_tnum_spec(raw) matches Some(t) ==> normalize_tnum_spec(t) == Some(t),
{
    law_normalize_agrees_with_parse(raw);
    if let Some(t) = normalize_tnum_spec(raw) {
        let d = t_number_digits(raw);
        law_t_prefix_optional(d);
        law_normalize_agrees_with_parse(t);
    }
}

} // verus!
