//! Reading the registry's detail page for one registration number.

use vstd::prelude::*;

use crate::text::{chars_of, range_equals, string_from, texts, trim, trim_range};
use crate::tnumber::InvoiceLookupError;

verus! {

/// Registration information as the registry publishes it.
#[derive(Debug, Clone)]
pub struct InvoiceInfo {
    /// Name of the registered person or company.
    pub name: String,
    /// Date of registration, as the registry writes it.
    pub registration_date: String,
    /// Address of the head office or principal place of business.
    pub address: String,
    /// Date of the last update, as the registry writes it.
    pub last_updated: String,
    /// Whether the number is registered.
    pub registered: bool,
}

/// The content of an [`InvoiceInfo`].
pub struct InvoiceFields {
    pub name: Seq<char>,
    pub registration_date: Seq<char>,
    pub address: Seq<char>,
    pub last_updated: Seq<char>,
    pub registered: bool,
}

impl View for InvoiceInfo {
    type V = InvoiceFields;

    open spec fn view(&self) -> InvoiceFields {
        InvoiceFields {
            name: self.name@,
            registration_date: self.registration_date@,
            address: self.address@,
            last_updated: self.last_updated@,
            registered: self.registered,
        }
    }
}

/// The sentence with which the registry reports an unknown number.
pub open spec fn not_found_marker() -> Seq<char> {
    "検索対象の登録番号は存在しません"@
}

/// The fields of an unregistered number: all empty, not registered.
pub open spec fn unregistered_fields() -> InvoiceFields {
    InvoiceFields {
        name: Seq::empty(),
        registration_date: Seq::empty(),
        address: Seq::empty(),
        last_updated: Seq::empty(),
        registered: false,
    }
}

/// `p` occurs in `s` as a contiguous run of characters.
pub open spec fn contains_seq(s: Seq<char>, p: Seq<char>) -> bool {
    exists|i: int| 0 <= i <= s.len() - p.len() && #[trigger] s.subrange(i, i + p.len()) == p
}

/// Whether `p` occurs in `v`.
pub fn contains_chars(v: &Vec<char>, p: &Vec<char>) -> (b: bool)
    ensures
        b == contains_seq(v@, p@),
{
    if p.len() == 0 {
        assert(v@.subrange(0int, 0int + p@.len()) =~= p@);
        return true;
    }
    let mut i: usize = 0;
    while i <= v.len() && p.len() <= v.len() - i
        invariant
            p@.len() > 0,
            0 <= i <= v@.len(),
            forall|j: int| 0 <= j < i ==> #[trigger] v@.subrange(j, j + p@.len()) != p@,
        decreases v@.len() - i,
    {
        if range_equals(v, i, i + p.len(), p) {
            return true;
        }
        i += 1;
    }
    false
}

/// The value paired with the last label among the first `n` pairs whose
/// trimmed text equals `key`, trimmed; empty when no label matches.
pub open spec fn field_value(
    labels: Seq<Seq<char>>,
    values: Seq<Seq<char>>,
    key: Seq<char>,
    n: int,
) -> Seq<char>
    decreases n,
{
    if n <= 0 {
        Seq::empty()
    } else if trim(labels[n - 1]) == key {
        trim(values[n - 1])
    } else {
        field_value(labels, values, key, n - 1)
    }
}

/// The label of the name field.
pub open spec fn name_label() -> Seq<char> {
    "氏名又は名称"@
}

/// The label of the registration-date field.
pub open spec fn registration_date_label() -> Seq<char> {
    "登録年月日"@
}

/// The label of the address field.
pub open spec fn address_label() -> Seq<char> {
    "本店又は主たる事務所の所在地"@
}

/// The label of the last-update field.
pub open spec fn last_updated_label() -> Seq<char> {
    "最終更新年月日"@
}

/// The registration read from the page's labels and data items, paired in
/// order up to the shorter of the two lists.
pub open spec fn info_from_items_spec(labels: Seq<Seq<char>>, values: Seq<Seq<char>>) -> InvoiceFields {
    let n = if labels.len() < values.len() {
        labels.len() as int
    } else {
        values.len() as int
    };
    InvoiceFields {
        name: field_value(labels, values, name_label(), n),
        registration_date: field_value(labels, values, registration_date_label(), n),
        address: field_value(labels, values, address_label(), n),
        last_updated: field_value(labels, values, last_updated_label(), n),
        registered: true,
    }
}

/// A field is the whole trimmed text of the data item paired with the last
/// label, among the first `n`, whose trimmed text is the field's label.
pub proof fn law_field_is_last_matching_item(
    labels: Seq<Seq<char>>,
    values: Seq<Seq<char>>,
    key: Seq<char>,
    n: int,
    j: int,
)
    requires
        0 <= j < n <= labels.len(),
        n <= values.len(),
        trim(labels[j]) == key,
        forall|i: int| j < i < n ==> trim(#[trigger] labels[i]) != key,
    ensures
        field_value(labels, values, key, n) == trim(values[j]),
    decreases n,
{
    if n - 1 != j {
        assert(trim(labels[n - 1]) != key);
        law_field_is_last_matching_item(labels, values, key, n - 1, j);
    }
}

/// A field whose label is not among the first `n` labels is empty.
pub proof fn law_field_without_label_is_empty(
    labels: Seq<Seq<char>>,
    values: Seq<Seq<char>>,
    key: Seq<char>,
    n: int,
)
    requires
        n <= labels.len(),
        forall|i: int| 0 <= i < n ==> trim(#[trigger] labels[i]) != key,
    ensures
        field_value(labels, values, key, n) == Seq::<char>::empty(),
    decreases n,
{
    if n > 0 {
        assert(trim(labels[n - 1]) != key);
        law_field_without_label_is_empty(labels, values, key, n - 1);
    }
}

/// The field a label/item pair fills: the item's whole trimmed text.
pub open spec fn filled(label: Seq<char>, value: Seq<char>, key: Seq<char>) -> Seq<char> {
    if trim(label) == key {
        trim(value)
    } else {
        Seq::empty()
    }
}

/// A page with one label and one data item is registered, and the item's
/// whole trimmed text fills the field that the label names; the other
/// fields are empty.
pub proof fn law_single_item_fills_its_field(label: Seq<char>, value: Seq<char>)
    ensures
        info_from_items_spec(seq![label], seq![value]).registered,
        info_from_items_spec(seq![label], seq![value]).name == filled(label, value, name_label()),
        info_from_items_spec(seq![label], seq![value]).registration_date == filled(
            label,
            value,
            registration_date_label(),
        ),
        info_from_items_spec(seq![label], seq![value]).address == filled(
            label,
            value,
            address_label(),
        ),
        info_from_items_spec(seq![label], seq![value]).last_updated == filled(
            label,
            value,
            last_updated_label(),
        ),
{
    let ls = seq![label];
    let vs = seq![value];
    assert(ls[0] == label);
    assert(vs[0] == value);
    assert(field_value(ls, vs, name_label(), 0) == Seq::<char>::empty());
    assert(field_value(ls, vs, registration_date_label(), 0) == Seq::<char>::empty());
    assert(field_value(ls, vs, address_label(), 0) == Seq::<char>::empty());
    assert(field_value(ls, vs, last_updated_label(), 0) == Seq::<char>::empty());
}

/// The trimmed text of `s`.
fn trimmed(s: &String) -> (t: String)
    ensures
        t@ == trim(s@),
{
    let v = chars_of(s.as_str());
    let (a, b) = trim_range(&v, 0, v.len());
    assert(v@.subrange(0, v@.len() as int) == v@);
    string_from(&v, a, b)
}

/// Builds the registration from the texts of the page's item labels and
/// item data (untrimmed, in document order).
pub fn invoice_from_items(labels: &Vec<String>, values: &Vec<String>) -> (info: InvoiceInfo)
    ensures
        info@ == info_from_items_spec(texts(labels@), texts(values@)),
{
    let n = if labels.len() < values.len() {
        labels.len()
    } else {
        values.len()
    };
    let key_name = chars_of("氏名又は名称");
    let key_date = chars_of("登録年月日");
    let key_address = chars_of("本店又は主たる事務所の所在地");
    let key_updated = chars_of("最終更新年月日");
    let mut name = String::new();
    let mut registration_date = String::new();
    let mut address = String::new();
    let mut last_updated = String::new();
    let ghost ls = texts(labels@);
    let ghost vs = texts(values@);
    proof {
        reveal_strlit("氏名又は名称");
        reveal_strlit("登録年月日");
        reveal_strlit("本店又は主たる事務所の所在地");
        reveal_strlit("最終更新年月日");
        assert(name_label().len() == 6);
        assert(registration_date_label().len() == 5);
        assert(address_label().len() == 14);
        assert(last_updated_label().len() == 7);
        assert(name_label()[0] != last_updated_label()[0]);
    }
    let mut i: usize = 0;
    while i < n
        invariant
            n <= labels@.len(),
            name_label() != registration_date_label(),
            name_label() != address_label(),
            name_label() != last_updated_label(),
            registration_date_label() != address_label(),
            registration_date_label() != last_updated_label(),
            address_label() != last_updated_label(),
            n <= values@.len(),
            0 <= i <= n,
            ls == texts(labels@),
            vs == texts(values@),
            key_name@ == name_label(),
            key_date@ == registration_date_label(),
            key_address@ == address_label(),
            key_updated@ == last_updated_label(),
            name@ == field_value(ls, vs, name_label(), i as int),
            registration_date@ == field_value(ls, vs, registration_date_label(), i as int),
            address@ == field_value(ls, vs, address_label(), i as int),
            last_updated@ == field_value(ls, vs, last_updated_label(), i as int),
        decreases n - i,
    {
        let lv = chars_of(labels[i].as_str());
        let (a, b) = trim_range(&lv, 0, lv.len());
        assert(lv@.subrange(0, lv@.len() as int) == lv@);
        assert(ls[i as int] == labels@[i as int]@);
        assert(vs[i as int] == values@[i as int]@);
        if range_equals(&lv, a, b, &key_name) {
            name = trimmed(&values[i]);
        } else if range_equals(&lv, a, b, &key_date) {
            registration_date = trimmed(&values[i]);
        } else if range_equals(&lv, a, b, &key_address) {
            address = trimmed(&values[i]);
        } else if range_equals(&lv, a, b, &key_updated) {
            last_updated = trimmed(&values[i]);
        }
        i += 1;
    }
    InvoiceInfo { name, registration_date, address, last_updated, registered: true }
}


/// Whether scraper's `Selector::parse` accepts the CSS selector group `css`.
pub uninterp spec fn css_selector_valid(css: Seq<char>) -> bool;

/// The text content of each element of the HTML document `html` that the
/// CSS selector `css` matches, as scraper computes it, in the order in which
/// `Html::select` yields the elements (the order in which the parser added
/// their nodes to the document tree).
pub uninterp spec fn selected_texts(html: Seq<char>, css: Seq<char>) -> Seq<Seq<char>>;

/// Runs scraper on a page: `Html::parse_document` parses `html`,
/// `Selector::parse` reads `css`, `Html::select` finds the matching elements
/// and `ElementRef::text` gives each element's text, concatenated.
/// Claimed: the result is present exactly when the selector parses, and then
/// it is the list that scraper computes from these two arguments alone.
#[verifier::external_body]
fn select_texts(html: &str, css: &str) -> (r: Option<Vec<String>>)
    ensures
        r is Some <==> css_selector_valid(css@),
        r matches Some(v) ==> texts(v@) == selected_texts(html@, css@),
{
    let document = scraper::Html::parse_document(html);
    match scraper::Selector::parse(css) {
        Ok(selector) => Some(document.select(&selector).map(|el| el.text().collect()).collect()),
        Err(_) => None,
    }
}

/// The selector of the item labels on the detail page.
pub open spec fn label_selector() -> Seq<char> {
    "h3.itemlabel"@
}

/// The selector of the item data on the detail page.
pub open spec fn data_selector() -> Seq<char> {
    "p.itemdata"@
}

/// What `parse_invoice_html` gives for a page: an unregistered result when
/// the page reports an unknown number; otherwise the registration read from
/// the labels and data items, or `ParseError` when a selector is refused.
pub open spec fn page_outcome(html: Seq<char>) -> Option<InvoiceFields> {
    if contains_seq(html, not_found_marker()) {
        Some(unregistered_fields())
    } else if !css_selector_valid(label_selector()) || !css_selector_valid(data_selector()) {
        None
    } else {
        Some(
            info_from_items_spec(
                selected_texts(html, label_selector()),
                selected_texts(html, data_selector()),
            ),
        )
    }
}

/// A page that reports an unknown number reads as unregistered, with every
/// field empty, whatever else the page holds.
pub proof fn law_unknown_number_reads_unregistered(html: Seq<char>)
    requires
        contains_seq(html, not_found_marker()),
    ensures
        page_outcome(html) == Some(unregistered_fields()),
        !unregistered_fields().registered,
        unregistered_fields().name.len() == 0,
{
}

/// Once scraper accepts the two fixed selectors, every page reads: it is
/// registered exactly when it does not report an unknown number, and an
/// unregistered page has every field empty.
pub proof fn law_page_reads_registered_unless_unknown(html: Seq<char>)
    ensures
        css_selector_valid(label_selector()) && css_selector_valid(data_selector()) ==> (
        page_outcome(html) matches Some(f) && f.registered == !contains_seq(html, not_found_marker())
            && (!f.registered ==> f == unregistered_fields())),
{
}

/// Reads the registration from the registry's detail page.
///
/// A page that reports an unknown number gives `registered: false` and
/// empty fields.
pub fn parse_invoice_html(html: &str) -> (r: Result<InvoiceInfo, InvoiceLookupError>)
    ensures
        match r {
            Ok(info) => page_outcome(html@) == Some(info@),
            Err(e) => page_outcome(html@) is None && e is ParseError,
        },
{
    let page = chars_of(html);
    let marker = chars_of("検索対象の登録番号は存在しません");
    if contains_chars(&page, &marker) {
        return Ok(
            InvoiceInfo {
                name: String::new(),
                registration_date: String::new(),
                address: String::new(),
                last_updated: String::new(),
                registered: false,
            },
        );
    }
    let labels = match select_texts(html, "h3.itemlabel") {
        Some(v) => v,
        None => return Err(InvoiceLookupError::ParseError),
    };
    let values = match select_texts(html, "p.itemdata") {
        Some(v) => v,
        None => return Err(InvoiceLookupError::ParseError),
    };
    Ok(invoice_from_items(&labels, &values))
}

} // verus!
