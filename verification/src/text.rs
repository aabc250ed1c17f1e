//! Character-level text helpers shared by the parsers.

use vstd::prelude::*;

verus! {

/// The Unicode `White_Space` property, the set of characters that
/// `char::is_whitespace` (and so `str::trim`) treats as white space.
pub open spec fn is_white_space(c: char) -> bool {
    let u = c as u32;
    ||| 0x9 <= u <= 0xD
    ||| u == 0x20
    ||| u == 0x85
    ||| u == 0xA0
    ||| u == 0x1680
    ||| 0x2000 <= u <= 0x200A
    ||| u == 0x2028
    ||| u == 0x2029
    ||| u == 0x202F
    ||| u == 0x205F
    ||| u == 0x3000
}

/// Tests for Unicode white space.
pub fn white_space(c: char) -> (b: bool)
    ensures
        b == is_white_space(c),
{
    let u = c as u32;
    (0x9 <= u && u <= 0xD) || u == 0x20 || u == 0x85 || u == 0xA0 || u == 0x1680 || (0x2000 <= u
        && u <= 0x200A) || u == 0x2028 || u == 0x2029 || u == 0x202F || u == 0x205F || u == 0x3000
}

/// The characters of `s` after leading white space is removed.
pub open spec fn trim_start(s: Seq<char>) -> Seq<char>
    decreases s.len(),
{
    if s.len() > 0 && is_white_space(s[0]) {
        trim_start(s.drop_first())
    } else {
        s
    }
}

/// The characters of `s` after trailing white space is removed.
pub open spec fn trim_end(s: Seq<char>) -> Seq<char>
    decreases s.len(),
{
    if s.len() > 0 && is_white_space(s.last()) {
        trim_end(s.drop_last())
    } else {
        s
    }
}

/// `s` without leading and trailing white space.
pub open spec fn trim(s: Seq<char>) -> Seq<char> {
    trim_end(trim_start(s))
}

/// The characters of a string, in order.
pub fn chars_of(s: &str) -> (v: Vec<char>)
    ensures
        v@ == s@,
{
    let mut v: Vec<char> = Vec::new();
    for c in it: s.chars()
        invariant
            it.seq() == s@,
            v@ == it.seq().take(it.index()),
    {
        v.push(c);
        assert(it.seq().take(it.index() + 1) == it.seq().take(it.index()).push(c));
    }
    v
}


/// `String::push`: appends `c` to the end of `s`.
#[verifier::external_body]
pub(crate) fn push_char(s: &mut String, c: char)
    ensures
        final(s)@ == old(s)@.push(c),
{
    s.push(c);
}

/// A new string holding `v[lo..hi]`.
pub fn string_from(v: &Vec<char>, lo: usize, hi: usize) -> (s: String)
    requires
        lo <= hi <= v@.len(),
    ensures
        s@ == v@.subrange(lo as int, hi as int),
{
    let mut s = String::new();
    let mut i = lo;
    while i < hi
        invariant
            lo <= i <= hi <= v@.len(),
            s@ == v@.subrange(lo as int, i as int),
        decreases hi - i,
    {
        push_char(&mut s, v[i]);
        assert(v@.subrange(lo as int, i + 1) == v@.subrange(lo as int, i as int).push(v@[i as int]));
        i += 1;
    }
    s
}

proof fn lemma_trim_start_skip(s: Seq<char>, k: int)
    requires
        0 <= k <= s.len(),
        forall|j: int| 0 <= j < k ==> is_white_space(#[trigger] s[j]),
    ensures
        trim_start(s) == trim_start(s.skip(k)),
    decreases k,
{
    if k > 0 {
        assert(is_white_space(s[0]));
        assert forall|j: int| 0 <= j < k - 1 implies is_white_space(#[trigger] s.drop_first()[j]) by {
            assert(s.drop_first()[j] == s[j + 1]);
        }
        lemma_trim_start_skip(s.drop_first(), k - 1);
        assert(s.drop_first().skip(k - 1) == s.skip(k));
    } else {
        assert(s.skip(0) == s);
    }
}

proof fn lemma_trim_end_take(s: Seq<char>, k: int)
    requires
        0 <= k <= s.len(),
        forall|j: int| k <= j < s.len() ==> is_white_space(#[trigger] s[j]),
    ensures
        trim_end(s) == trim_end(s.take(k)),
    decreases s.len() - k,
{
    if k < s.len() {
        assert(s.drop_last() == s.take(s.len() - 1));
        lemma_trim_end_take(s.drop_last(), k);
        assert(s.drop_last().take(k) == s.take(k));
    } else {
        assert(s.take(k) == s);
    }
}

/// The bounds `(a, b)` of `trim(v[lo..hi])` inside `v`.
pub fn trim_range(v: &Vec<char>, lo: usize, hi: usize) -> (r: (usize, usize))
    requires
        lo <= hi <= v@.len(),
    ensures
        lo <= r.0 <= r.1 <= hi,
        v@.subrange(r.0 as int, r.1 as int) == trim(v@.subrange(lo as int, hi as int)),
        v@.subrange(r.0 as int, hi as int) == trim_start(v@.subrange(lo as int, hi as int)),
{
    let mut a = lo;
    while a < hi && white_space(v[a])
        invariant
            lo <= a <= hi <= v@.len(),
            forall|j: int| lo <= j < a ==> is_white_space(#[trigger] v@[j]),
        decreases hi - a,
    {
        a += 1;
    }
    let ghost s = v@.subrange(lo as int, hi as int);
    proof {
        lemma_trim_start_skip(s, a - lo);
        assert(s.skip(a - lo) == v@.subrange(a as int, hi as int));
    }
    let mut b = hi;
    while b > a && white_space(v[b - 1])
        invariant
            lo <= a <= b <= hi <= v@.len(),
            forall|j: int| b <= j < hi ==> is_white_space(#[trigger] v@[j]),
        decreases b,
    {
        b -= 1;
    }
    proof {
        let t = v@.subrange(a as int, hi as int);
        lemma_trim_end_take(t, b - a);
        assert(t.take(b - a) == v@.subrange(a as int, b as int));
        let u = v@.subrange(a as int, b as int);
        if u.len() > 0 {
            assert(u.last() == v@[b - 1]);
        }
        assert(trim_start(v@.subrange(a as int, hi as int)) == v@.subrange(a as int, hi as int));
    }
    (a, b)
}

/// Index of the first occurrence of `c` in `s`.
pub open spec fn find_char(s: Seq<char>, c: char) -> Option<int>
    decreases s.len(),
{
    if s.len() == 0 {
        None
    } else if s[0] == c {
        Some(0)
    } else {
        match find_char(s.drop_first(), c) {
            Some(i) => Some(i + 1),
            None => None,
        }
    }
}

/// `find_char` is the first index holding `c`.
pub proof fn lemma_find_char(s: Seq<char>, c: char, k: int)
    requires
        0 <= k <= s.len(),
        forall|j: int| 0 <= j < k ==> #[trigger] s[j] != c,
        k < s.len() ==> s[k] == c,
    ensures
        find_char(s, c) == if k < s.len() {
            Some(k)
        } else {
            None::<int>
        },
    decreases k,
{
    if k > 0 {
        lemma_find_char(s.drop_first(), c, k - 1);
    }
}

/// The first index `k` in `lo..hi` with `v[k] == c`.
pub fn find_in(v: &Vec<char>, lo: usize, hi: usize, c: char) -> (r: Option<usize>)
    requires
        lo <= hi <= v@.len(),
    ensures
        match r {
            Some(k) => lo <= k < hi && find_char(v@.subrange(lo as int, hi as int), c) == Some(
                k - lo,
            ),
            None => find_char(v@.subrange(lo as int, hi as int), c) is None,
        },
{
    let mut i = lo;
    while i < hi
        invariant
            lo <= i <= hi <= v@.len(),
            forall|j: int| lo <= j < i ==> #[trigger] v@[j] != c,
        decreases hi - i,
    {
        if v[i] == c {
            proof {
                lemma_find_char(v@.subrange(lo as int, hi as int), c, i - lo);
            }
            return Some(i);
        }
        i += 1;
    }
    proof {
        lemma_find_char(v@.subrange(lo as int, hi as int), c, i - lo);
    }
    None
}

/// An ASCII decimal digit.
pub open spec fn is_digit(c: char) -> bool {
    '0' <= c <= '9'
}

/// Every character of `s` is an ASCII decimal digit.
pub open spec fn all_digits(s: Seq<char>) -> bool {
    forall|i: int| 0 <= i < s.len() ==> is_digit(#[trigger] s[i])
}

/// The value of an ASCII digit.
pub open spec fn digit_value(c: char) -> int {
    c as int - '0' as int
}

/// The number that a string of decimal digits denotes.
pub open spec fn decimal_value(s: Seq<char>) -> int
    decreases s.len(),
{
    if s.len() == 0 {
        0
    } else {
        decimal_value(s.drop_last()) * 10 + digit_value(s.last())
    }
}

/// What `u32::from_str` accepts: an optional `+` followed by one or more
/// decimal digits whose value fits in a `u32`.
pub open spec fn parse_u32_spec(s: Seq<char>) -> Option<u32> {
    let d = if s.len() > 0 && s[0] == '+' {
        s.drop_first()
    } else {
        s
    };
    if d.len() > 0 && all_digits(d) && decimal_value(d) <= u32::MAX {
        Some(decimal_value(d) as u32)
    } else {
        None
    }
}

proof fn lemma_decimal_value_monotone(s: Seq<char>, k: int)
    requires
        0 <= k <= s.len(),
        all_digits(s),
    ensures
        0 <= decimal_value(s.take(k)) <= decimal_value(s),
    decreases s.len() - k,
{
    if k < s.len() {
        assert(s.drop_last().take(k) == s.take(k));
        assert(all_digits(s.drop_last()));
        lemma_decimal_value_monotone(s.drop_last(), k);
        lemma_decimal_value_nonneg(s.drop_last());
    } else {
        assert(s.take(k) == s);
        lemma_decimal_value_nonneg(s);
    }
}

proof fn lemma_decimal_value_nonneg(s: Seq<char>)
    requires
        all_digits(s),
    ensures
        0 <= decimal_value(s),
    decreases s.len(),
{
    if s.len() > 0 {
        assert(all_digits(s.drop_last()));
        lemma_decimal_value_nonneg(s.drop_last());
    }
}

/// The ASCII digit for `d < 10`.
pub open spec fn digit_char(d: nat) -> char {
    (d + 48) as char
}

/// The decimal numeral of `n`, without leading zeros.
pub open spec fn decimal(n: nat) -> Seq<char>
    decreases n,
{
    if n < 10 {
        seq![digit_char(n)]
    } else {
        decimal(n / 10).push(digit_char(n % 10))
    }
}

/// A decimal numeral is a non-empty run of digits denoting its number.
pub proof fn lemma_decimal(n: nat)
    ensures
        decimal(n).len() >= 1,
        all_digits(decimal(n)),
        decimal_value(decimal(n)) == n,
    decreases n,
{
    let c = digit_char(n % 10);
    assert(is_digit(c) && digit_value(c) == n % 10);
    if n >= 10 {
        lemma_decimal(n / 10);
        let s = decimal(n / 10);
        assert(s.push(c).drop_last() == s);
        assert((n / 10) * 10 + n % 10 == n) by (nonlinear_arith);
        assert(decimal_value(s.push(c)) == decimal_value(s) * 10 + digit_value(c));
        assert forall|i: int| 0 <= i < s.push(c).len() implies is_digit(#[trigger] s.push(c)[i]) by {
            if i < s.len() {
                assert(s.push(c)[i] == s[i]);
            }
        }
    } else {
        assert(decimal(n).drop_last() =~= Seq::<char>::empty());
        assert(decimal(n).last() == c);
        assert(decimal_value(decimal(n)) == decimal_value(Seq::<char>::empty()) * 10 + digit_value(c));
    }
}

/// `u32::from_str` reads back the numeral of every `u32`: what a decimal
/// rendering writes, parsing gives back.
pub proof fn law_parse_u32_reads_decimal(n: u32)
    ensures
        parse_u32_spec(decimal(n as nat)) == Some(n),
        trim(decimal(n as nat)) == decimal(n as nat),
{
    lemma_decimal(n as nat);
    let s = decimal(n as nat);
    assert(is_digit(s[0]));
    assert(is_digit(s.last()));
    assert(trim_start(s) == s);
}

/// `k` zeros.
pub open spec fn zeros(k: nat) -> Seq<char> {
    Seq::new(k, |i: int| '0')
}

proof fn lemma_zeros_value(z: Seq<char>, s: Seq<char>)
    requires
        forall|i: int| 0 <= i < z.len() ==> z[i] == '0',
    ensures
        decimal_value(z + s) == decimal_value(s),
    decreases z.len() + s.len(),
{
    if s.len() == 0 {
        assert(z + s == z);
        if z.len() > 0 {
            lemma_zeros_value(z.drop_last(), s);
            assert(z.drop_last() + s == z.drop_last());
            assert(z.last() == '0');
        }
    } else {
        lemma_zeros_value(z, s.drop_last());
        assert((z + s).drop_last() == z + s.drop_last());
        assert((z + s).last() == s.last());
    }
}

/// `u32::from_str` reads back the numeral of every `u32` with any number of
/// leading zeros, as `{:02}`-style formatting writes it.
pub proof fn law_parse_u32_reads_padded(n: u32, k: nat)
    ensures
        parse_u32_spec(zeros(k) + decimal(n as nat)) == Some(n),
        trim(zeros(k) + decimal(n as nat)) == zeros(k) + decimal(n as nat),
        all_digits(zeros(k) + decimal(n as nat)),
{
    lemma_decimal(n as nat);
    let d = decimal(n as nat);
    let s = zeros(k) + d;
    lemma_zeros_value(zeros(k), d);
    assert forall|i: int| 0 <= i < s.len() implies is_digit(#[trigger] s[i]) by {
        if i >= k {
            assert(s[i] == d[i - k]);
        }
    }
    assert(is_digit(s[0]));
    assert(s.last() == d.last());
    assert(is_digit(s.last()));
    assert(trim_start(s) == s);
}

/// `u32::from_str` on `v[lo..hi]`, with the error dropped.
pub fn parse_u32(v: &Vec<char>, lo: usize, hi: usize) -> (r: Option<u32>)
    requires
        lo <= hi <= v@.len(),
    ensures
        r == parse_u32_spec(v@.subrange(lo as int, hi as int)),
{
    let ghost s = v@.subrange(lo as int, hi as int);
    let mut start = lo;
    if lo < hi && v[lo] == '+' {
        start = lo + 1;
    }
    let ghost d = v@.subrange(start as int, hi as int);
    assert(d == (if s.len() > 0 && s[0] == '+' { s.drop_first() } else { s }));
    if start == hi {
        return None;
    }
    let mut acc: u64 = 0;
    let mut i = start;
    while i < hi
        invariant
            lo <= start <= i <= hi <= v@.len(),
            s == v@.subrange(lo as int, hi as int),
            d == v@.subrange(start as int, hi as int),
            d == (if s.len() > 0 && s[0] == '+' { s.drop_first() } else { s }),
            d.len() > 0,
            all_digits(d.take(i - start)),
            acc == decimal_value(d.take(i - start)),
            acc <= u32::MAX,
        decreases hi - i,
    {
        let c = v[i];
        if !('0' <= c && c <= '9') {
            assert(d[i - start] == c);
            return None;
        }
        let dv = (c as u32 - '0' as u32) as u64;
        assert(d.take(i + 1 - start).drop_last() == d.take(i - start));
        assert(d.take(i + 1 - start).last() == c);
        assert(all_digits(d.take(i + 1 - start))) by {
            assert forall|j: int| 0 <= j < i + 1 - start implies is_digit(
                #[trigger] d.take(i + 1 - start)[j],
            ) by {
                if j < i - start {
                    assert(d.take(i + 1 - start)[j] == d.take(i - start)[j]);
                }
            }
        }
        let next = acc * 10 + dv;
        if next > u32::MAX as u64 {
            proof {
                if all_digits(d) {
                    lemma_decimal_value_monotone(d, i + 1 - start);
                }
            }
            return None;
        }
        acc = next;
        i += 1;
    }
    assert(d.take(i - start) == d);
    Some(acc as u32)
}


/// Whether `v[lo..hi]` equals `w`.
pub fn range_equals(v: &Vec<char>, lo: usize, hi: usize, w: &Vec<char>) -> (b: bool)
    requires
        lo <= hi <= v@.len(),
    ensures
        b == (v@.subrange(lo as int, hi as int) == w@),
{
    if hi - lo != w.len() {
        return false;
    }
    let mut i: usize = 0;
    while i < w.len()
        invariant
            lo <= hi <= v@.len(),
            hi - lo == w@.len(),
            0 <= i <= w@.len(),
            forall|j: int| 0 <= j < i ==> v@[lo + j] == #[trigger] w@[j],
        decreases w@.len() - i,
    {
        if v[lo + i] != w[i] {
            assert(v@.subrange(lo as int, hi as int)[i as int] != w@[i as int]);
            return false;
        }
        i += 1;
    }
    assert(v@.subrange(lo as int, hi as int) =~= w@);
    true
}


/// `s` begins with `p`.
pub open spec fn starts_with(s: Seq<char>, p: Seq<char>) -> bool {
    p.len() <= s.len() && s.take(p.len() as int) == p
}

/// Scanning `s` for `sep`: the pieces closed so far and the open piece.
pub open spec fn split_scan(s: Seq<char>, sep: char) -> (Seq<Seq<char>>, Seq<char>)
    decreases s.len(),
{
    if s.len() == 0 {
        (Seq::empty(), Seq::empty())
    } else {
        let (pieces, current) = split_scan(s.drop_last(), sep);
        if s.last() == sep {
            (pieces.push(current), Seq::empty())
        } else {
            (pieces, current.push(s.last()))
        }
    }
}

/// The pieces of `s` between occurrences of `sep`, as `str::split` gives them.
pub open spec fn split_char(s: Seq<char>, sep: char) -> Seq<Seq<char>> {
    split_scan(s, sep).0.push(split_scan(s, sep).1)
}

/// Appending text without `sep` extends the open piece.
pub proof fn lemma_split_scan_append(p: Seq<char>, t: Seq<char>, sep: char)
    requires
        forall|i: int| 0 <= i < t.len() ==> t[i] != sep,
    ensures
        split_scan(p + t, sep) == (split_scan(p, sep).0, split_scan(p, sep).1 + t),
    decreases t.len(),
{
    if t.len() == 0 {
        assert(p + t == p);
        assert(split_scan(p, sep).1 + t == split_scan(p, sep).1);
    } else {
        lemma_split_scan_append(p, t.drop_last(), sep);
        assert((p + t).drop_last() == p + t.drop_last());
        assert((p + t).last() == t.last());
        assert((split_scan(p, sep).1 + t.drop_last()).push(t.last()) == split_scan(p, sep).1 + t);
    }
}

/// Appending `sep` closes the open piece.
pub proof fn lemma_split_scan_sep(p: Seq<char>, sep: char)
    ensures
        split_scan(p.push(sep), sep) == (
            split_scan(p, sep).0.push(split_scan(p, sep).1),
            Seq::<char>::empty(),
        ),
{
    assert(p.push(sep).drop_last() == p);
}

/// The bounds in `v` of the pieces of `v[lo..hi]` split at `sep`.
pub fn split_ranges(v: &Vec<char>, lo: usize, hi: usize, sep: char) -> (r: Vec<(usize, usize)>)
    requires
        lo <= hi <= v@.len(),
    ensures
        r@.len() == split_char(v@.subrange(lo as int, hi as int), sep).len(),
        forall|k: int|
            0 <= k < r@.len() ==> {
                &&& lo <= (#[trigger] r@[k]).0 <= r@[k].1 <= hi
                &&& v@.subrange(r@[k].0 as int, r@[k].1 as int) == split_char(
                    v@.subrange(lo as int, hi as int),
                    sep,
                )[k]
            },
{
    let mut r: Vec<(usize, usize)> = Vec::new();
    let mut start = lo;
    let mut i = lo;
    while i < hi
        invariant
            lo <= start <= i <= hi <= v@.len(),
            r@.len() == split_scan(v@.subrange(lo as int, i as int), sep).0.len(),
            v@.subrange(start as int, i as int) == split_scan(
                v@.subrange(lo as int, i as int),
                sep,
            ).1,
            forall|k: int|
                0 <= k < r@.len() ==> {
                    &&& lo <= (#[trigger] r@[k]).0 <= r@[k].1 <= start
                    &&& v@.subrange(r@[k].0 as int, r@[k].1 as int) == split_scan(
                        v@.subrange(lo as int, i as int),
                        sep,
                    ).0[k]
                },
        decreases hi - i,
    {
        let ghost prev = v@.subrange(lo as int, i as int);
        let ghost next = v@.subrange(lo as int, i + 1);
        assert(next.drop_last() == prev);
        assert(next.last() == v@[i as int]);
        if v[i] == sep {
            r.push((start, i));
            start = i + 1;
            assert(v@.subrange(start as int, i + 1) =~= Seq::<char>::empty());
        } else {
            assert(v@.subrange(start as int, i + 1) == v@.subrange(start as int, i as int).push(
                v@[i as int],
            ));
        }
        i += 1;
    }
    r.push((start, hi));
    r
}


/// The texts of a list of strings.
pub open spec fn texts(v: Seq<String>) -> Seq<Seq<char>> {
    v.map_values(|s: String| s@)
}

/// A line without the `\r` of a `\r\n` ending.
pub open spec fn strip_cr(s: Seq<char>) -> Seq<char> {
    if s.len() > 0 && s.last() == '\r' {
        s.drop_last()
    } else {
        s
    }
}

/// Scanning `s` for line ends: the finished lines and the open line.
pub open spec fn line_scan(s: Seq<char>) -> (Seq<Seq<char>>, Seq<char>)
    decreases s.len(),
{
    if s.len() == 0 {
        (Seq::empty(), Seq::empty())
    } else {
        let (done, current) = line_scan(s.drop_last());
        if s.last() == '\n' {
            (done.push(strip_cr(current)), Seq::empty())
        } else {
            (done, current.push(s.last()))
        }
    }
}

/// The lines of `s` as `str::lines` gives them: split at `\n`, a `\r`
/// before the `\n` removed, and no empty line after a final `\n`.
pub open spec fn lines_of(s: Seq<char>) -> Seq<Seq<char>> {
    let (done, current) = line_scan(s);
    if current.len() == 0 {
        done
    } else {
        done.push(current)
    }
}

/// The lines of a text hold no line break.
pub proof fn lemma_lines_have_no_newline(s: Seq<char>)
    ensures
        forall|k: int, i: int|
            0 <= k < lines_of(s).len() && 0 <= i < lines_of(s)[k].len() ==> #[trigger] lines_of(
                s,
            )[k][i] != '\n',
{
    lemma_line_scan_no_newline(s);
}

proof fn lemma_line_scan_no_newline(s: Seq<char>)
    ensures
        forall|k: int, i: int|
            0 <= k < line_scan(s).0.len() && 0 <= i < line_scan(s).0[k].len() ==> #[trigger] line_scan(
                s,
            ).0[k][i] != '\n',
        forall|i: int| 0 <= i < line_scan(s).1.len() ==> #[trigger] line_scan(s).1[i] != '\n',
    decreases s.len(),
{
    if s.len() > 0 {
        lemma_line_scan_no_newline(s.drop_last());
        let (done, cur) = line_scan(s.drop_last());
        if s.last() == '\n' {
            let l = strip_cr(cur);
            assert forall|i: int| 0 <= i < l.len() implies l[i] != '\n' by {
                assert(l[i] == cur[i]);
            }
            assert forall|k: int, i: int|
                0 <= k < done.push(l).len() && 0 <= i < done.push(l)[k].len() implies #[trigger] done.push(
                    l,
                )[k][i] != '\n' by {
                if k < done.len() {
                    assert(done.push(l)[k] == done[k]);
                }
            }
        } else {
            assert forall|i: int| 0 <= i < cur.push(s.last()).len() implies #[trigger] cur.push(
                s.last(),
            )[i] != '\n' by {
                if i < cur.len() {
                    assert(cur.push(s.last())[i] == cur[i]);
                }
            }
        }
    }
}

/// Appending text without `\n` extends the open line.
pub proof fn lemma_line_scan_append(p: Seq<char>, t: Seq<char>)
    requires
        forall|i: int| 0 <= i < t.len() ==> t[i] != '\n',
    ensures
        line_scan(p + t) == (line_scan(p).0, line_scan(p).1 + t),
    decreases t.len(),
{
    if t.len() == 0 {
        assert(p + t == p);
        assert(line_scan(p).1 + t == line_scan(p).1);
    } else {
        lemma_line_scan_append(p, t.drop_last());
        assert((p + t).drop_last() == p + t.drop_last());
        assert((p + t).last() == t.last());
        assert((line_scan(p).1 + t.drop_last()).push(t.last()) == line_scan(p).1 + t);
    }
}

/// Appending `\n` finishes the open line.
pub proof fn lemma_line_scan_newline(p: Seq<char>)
    ensures
        line_scan(p.push('\n')) == (line_scan(p).0.push(strip_cr(line_scan(p).1)), Seq::<char>::empty()),
{
    assert(p.push('\n').drop_last() == p);
}

/// The lines of `s`.
pub fn split_lines(s: &str) -> (r: Vec<String>)
    ensures
        texts(r@) == lines_of(s@),
{
    let v = chars_of(s);
    let mut r: Vec<String> = Vec::new();
    let mut start: usize = 0;
    let mut i: usize = 0;
    while i < v.len()
        invariant
            0 <= start <= i <= v@.len(),
            v@ == s@,
            texts(r@) == line_scan(v@.take(i as int)).0,
            v@.subrange(start as int, i as int) == line_scan(v@.take(i as int)).1,
        decreases v@.len() - i,
    {
        assert(v@.take(i + 1).drop_last() == v@.take(i as int));
        assert(v@.take(i + 1).last() == v@[i as int]);
        if v[i] == '\n' {
            let end = if i > start && v[i - 1] == '\r' {
                i - 1
            } else {
                i
            };
            assert(v@.subrange(start as int, end as int) == strip_cr(
                v@.subrange(start as int, i as int),
            ));
            r.push(string_from(&v, start, end));
            start = i + 1;
            assert(v@.subrange(start as int, i + 1) =~= Seq::<char>::empty());
        } else {
            assert(v@.subrange(start as int, i + 1) == v@.subrange(start as int, i as int).push(
                v@[i as int],
            ));
        }
        i += 1;
    }
    assert(v@.take(i as int) == s@);
    if start < v.len() {
        r.push(string_from(&v, start, v.len()));
    }
    r
}


/// `s` without leading and trailing white space.
pub fn trim_str(s: &str) -> (t: &str)
    ensures
        t@ == trim(s@),
{
    let v = chars_of(s);
    let (a, b) = trim_range(&v, 0, v.len());
    assert(v@.subrange(0, v@.len() as int) == v@);
    s.substring_char(a, b)
}

/// Whether `t` is among `list`.
pub fn list_contains(list: &Vec<String>, t: &String) -> (b: bool)
    ensures
        b == texts(list@).contains(t@),
{
    let mut i: usize = 0;
    while i < list.len()
        invariant
            0 <= i <= list@.len(),
            forall|j: int| 0 <= j < i ==> #[trigger] list@[j]@ != t@,
        decreases list@.len() - i,
    {
        if list[i] == *t {
            assert(texts(list@)[i as int] == t@);
            return true;
        }
        i += 1;
    }
    assert forall|j: int| 0 <= j < texts(list@).len() implies texts(list@)[j] != t@ by {
        assert(texts(list@)[j] == list@[j]@);
    }
    false
}

} // verus!
