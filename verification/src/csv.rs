//! Splitting a history-sheet line into its comma-separated fields.

use vstd::prelude::*;

use crate::text::{chars_of, push_char, split_char, split_scan, texts};

verus! {

/// The state after reading `s`: the closed fields, the open field, and
/// whether a quoted section is open. A `"` toggles quoting and is dropped;
/// a `,` outside quotes closes the field; every other character is kept.
pub open spec fn csv_scan(s: Seq<char>) -> (Seq<Seq<char>>, Seq<char>, bool)
    decreases s.len(),
{
    if s.len() == 0 {
        (Seq::empty(), Seq::empty(), false)
    } else {
        let (fields, current, quoted) = csv_scan(s.drop_last());
        let ch = s.last();
        if ch == '"' {
            (fields, current, !quoted)
        } else if ch == ',' && !quoted {
            (fields.push(current), Seq::empty(), quoted)
        } else {
            (fields, current.push(ch), quoted)
        }
    }
}

/// The fields of a line.
pub open spec fn csv_fields(s: Seq<char>) -> Seq<Seq<char>> {
    csv_scan(s).0.push(csv_scan(s).1)
}

/// Splits a sheet line at the commas that stand outside double quotes;
/// the quotes themselves are dropped.
pub fn parse_csv_line(line: &str) -> (fields: Vec<String>)
    ensures
        texts(fields@) == csv_fields(line@),
{
    let v = chars_of(line);
    let mut fields: Vec<String> = Vec::new();
    let mut current = String::new();
    let mut in_quotes = false;
    let mut i: usize = 0;
    while i < v.len()
        invariant
            0 <= i <= v@.len(),
            v@ == line@,
            (texts(fields@), current@, in_quotes) == csv_scan(v@.take(i as int)),
        decreases v@.len() - i,
    {
        let ch = v[i];
        assert(v@.take(i + 1).drop_last() == v@.take(i as int));
        assert(v@.take(i + 1).last() == ch);
        if ch == '"' {
            in_quotes = !in_quotes;
        } else if ch == ',' && !in_quotes {
            fields.push(current);
            current = String::new();
            assert(texts(fields@) == csv_scan(v@.take(i as int)).0.push(
                csv_scan(v@.take(i as int)).1,
            ));
        } else {
            push_char(&mut current, ch);
        }
        i += 1;
    }
    fields.push(current);
    assert(v@.take(i as int) == line@);
    fields
}

/// The scan of a line without double quotes is the scan of a plain split
/// at commas.
proof fn lemma_unquoted_scan(s: Seq<char>)
    requires
        forall|i: int| 0 <= i < s.len() ==> s[i] != '"',
    ensures
        csv_scan(s) == (split_scan(s, ',').0, split_scan(s, ',').1, false),
    decreases s.len(),
{
    if s.len() > 0 {
        lemma_unquoted_scan(s.drop_last());
        assert(s.last() == s[s.len() - 1]);
    }
}

/// A line without double quotes is split at every comma.
pub proof fn law_unquoted_line_splits_at_commas(s: Seq<char>)
    requires
        forall|i: int| 0 <= i < s.len() ==> s[i] != '"',
    ensures
        csv_fields(s) == split_char(s, ','),
{
    lemma_unquoted_scan(s);
}

/// The fields joined again with commas between them.
pub open spec fn join_commas(fields: Seq<Seq<char>>) -> Seq<char>
    decreases fields.len(),
{
    if fields.len() == 0 {
        Seq::empty()
    } else if fields.len() == 1 {
        fields[0]
    } else {
        join_commas(fields.drop_last()) + seq![','] + fields.last()
    }
}

/// `s` with every double quote removed.
pub open spec fn without_quotes(s: Seq<char>) -> Seq<char>
    decreases s.len(),
{
    if s.len() == 0 {
        Seq::empty()
    } else if s.last() == '"' {
        without_quotes(s.drop_last())
    } else {
        without_quotes(s.drop_last()).push(s.last())
    }
}

/// The number of double quotes in `s`.
pub open spec fn quote_count(s: Seq<char>) -> nat
    decreases s.len(),
{
    if s.len() == 0 {
        0
    } else {
        quote_count(s.drop_last()) + if s.last() == '"' {
            1nat
        } else {
            0nat
        }
    }
}

/// The number of commas in `s` preceded by an even number of double quotes,
/// that is, of commas outside quoted sections.
pub open spec fn separating_commas(s: Seq<char>) -> nat
    decreases s.len(),
{
    if s.len() == 0 {
        0
    } else {
        separating_commas(s.drop_last()) + if s.last() == ',' && quote_count(s.drop_last()) % 2
            == 0 {
            1nat
        } else {
            0nat
        }
    }
}

proof fn lemma_join_push(fields: Seq<Seq<char>>, cur: Seq<char>, ch: char)
    ensures
        join_commas(fields.push(cur.push(ch))) == join_commas(fields.push(cur)).push(ch),
{
    let f1 = fields.push(cur.push(ch));
    let f0 = fields.push(cur);
    assert(f1.drop_last() == fields);
    assert(f0.drop_last() == fields);
    if fields.len() == 0 {
        assert(f1[0] == cur.push(ch));
        assert(f0[0] == cur);
    } else {
        assert(join_commas(f1) == join_commas(fields) + seq![','] + cur.push(ch));
        assert(join_commas(f0) == join_commas(fields) + seq![','] + cur);
        assert(join_commas(fields) + seq![','] + cur.push(ch) == (join_commas(fields) + seq![',']
            + cur).push(ch));
    }
}

proof fn lemma_csv_scan(s: Seq<char>)
    ensures
        csv_scan(s).2 <==> quote_count(s) % 2 == 1,
        csv_scan(s).0.len() == separating_commas(s),
        join_commas(csv_scan(s).0.push(csv_scan(s).1)) == without_quotes(s),
        forall|i: int| 0 <= i < csv_scan(s).0.len() ==> !(#[trigger] csv_scan(s).0[i]).contains(
            '"',
        ),
        !csv_scan(s).1.contains('"'),
    decreases s.len(),
{
    if s.len() == 0 {
        let f = Seq::<Seq<char>>::empty().push(Seq::<char>::empty());
        assert(f.len() == 1);
        assert(join_commas(f) == f[0]);
    } else {
        let p = s.drop_last();
        lemma_csv_scan(p);
        let (fields, current, quoted) = csv_scan(p);
        let ch = s.last();
        if ch == '"' {
        } else if ch == ',' && !quoted {
            let f = fields.push(current);
            let g = f.push(Seq::<char>::empty());
            assert(g.drop_last() == f);
            assert(join_commas(g) == join_commas(f) + seq![','] + Seq::<char>::empty());
            assert(join_commas(f) + seq![','] + Seq::<char>::empty() == join_commas(f).push(','));
            assert forall|i: int| 0 <= i < f.len() implies !(#[trigger] f[i]).contains('"') by {
                if i < fields.len() {
                    assert(f[i] == fields[i]);
                }
            }
        } else {
            lemma_join_push(fields, current, ch);
            let c2 = current.push(ch);
            assert forall|j: int| 0 <= j < c2.len() implies c2[j] != '"' by {
                if j < current.len() {
                    assert(c2[j] == current[j]);
                    assert(!current.contains('"'));
                }
            }
        }
    }
}

/// Joining the fields of a line with commas gives the line back with its
/// double quotes removed: every other character is kept, in order.
pub proof fn law_fields_rejoin_to_line(s: Seq<char>)
    ensures
        join_commas(csv_fields(s)) == without_quotes(s),
{
    lemma_csv_scan(s);
}

/// A line has one field more than it has commas outside quoted sections
/// (commas inside quotes do not split), and no field holds a double quote.
pub proof fn law_field_count(s: Seq<char>)
    ensures
        csv_fields(s).len() == separating_commas(s) + 1,
        forall|i: int| 0 <= i < csv_fields(s).len() ==> !(#[trigger] csv_fields(s)[i]).contains(
            '"',
        ),
{
    lemma_csv_scan(s);
    let f = csv_fields(s);
    assert forall|i: int| 0 <= i < f.len() implies !(#[trigger] f[i]).contains('"') by {
        if i < csv_scan(s).0.len() {
            assert(f[i] == csv_scan(s).0[i]);
        }
    }
}

proof fn lemma_plain_scan(p: Seq<char>)
    requires
        !p.contains('"'),
        !p.contains(','),
    ensures
        csv_scan(p) == (Seq::<Seq<char>>::empty(), p, false),
    decreases p.len(),
{
    if p.len() > 0 {
        let q = p.drop_last();
        assert forall|j: int| 0 <= j < q.len() implies q[j] != '"' && q[j] != ',' by {
            assert(q[j] == p[j]);
        }
        lemma_plain_scan(q);
        assert(p.last() == p[p.len() - 1]);
        assert(q.push(p.last()) == p);
    }
}

/// Reading more text never changes the fields already closed.
proof fn lemma_scan_keeps_closed_fields(s: Seq<char>, t: Seq<char>)
    ensures
        csv_scan(s).0.len() <= csv_scan(s + t).0.len(),
        forall|i: int|
            0 <= i < csv_scan(s).0.len() ==> #[trigger] csv_scan(s + t).0[i] == csv_scan(s).0[i],
    decreases t.len(),
{
    if t.len() == 0 {
        assert(s + t == s);
    } else {
        lemma_scan_keeps_closed_fields(s, t.drop_last());
        assert((s + t).drop_last() == s + t.drop_last());
    }
}

/// The first field of a line is everything before its first comma, when
/// that part holds no double quote.
pub proof fn law_first_field(p: Seq<char>, rest: Seq<char>)
    requires
        !p.contains('"'),
        !p.contains(','),
    ensures
        csv_fields(p + seq![','] + rest)[0] == p,
        csv_fields(p + seq![','] + rest).len() >= 2,
{
    lemma_plain_scan(p);
    let s = p.push(',');
    assert(s.drop_last() == p);
    assert(csv_scan(s).0 == seq![p]);
    assert(p + seq![','] + rest == s + rest);
    lemma_scan_keeps_closed_fields(s, rest);
}

} // verus!
