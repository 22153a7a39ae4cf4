//! Reading one published rate table: a reporting period and its rates.
use crate::date::{is_month_period, parse_dmy, parsed_dmy, Date};
use crate::decimal::{decimal_of_text, DecimalValue};
use crate::error::{ConversionError, ErrorView};
use vstd::prelude::*;
use xml::reader::{EventReader, XmlEvent};

verus! {

/// One event of the markup reader: an element's start with its local name
/// and attributes, a text, an element's end, or anything else.
pub enum XmlItem {
    Start(String, Vec<(String, String)>),
    Text(String),
    End(String),
    Other,
}

/// An `XmlItem` with its texts as character sequences.
pub enum ItemView {
    Start(Seq<char>, Seq<(Seq<char>, Seq<char>)>),
    Text(Seq<char>),
    End(Seq<char>),
    Other,
}

/// Pairs of texts as pairs of character sequences.
pub open spec fn pairs_view(a: Seq<(String, String)>) -> Seq<(Seq<char>, Seq<char>)> {
    Seq::new(a.len(), |i: int| (a[i].0@, a[i].1@))
}

/// Currency codes and rates, with the codes as character sequences.
pub open spec fn rates_view(a: Seq<(String, DecimalValue)>) -> Seq<(Seq<char>, DecimalValue)> {
    Seq::new(a.len(), |i: int| (a[i].0@, a[i].1))
}

impl View for XmlItem {
    type V = ItemView;

    open spec fn view(&self) -> ItemView {
        match self {
            XmlItem::Start(n, a) => ItemView::Start(n@, pairs_view(a@)),
            XmlItem::Text(s) => ItemView::Text(s@),
            XmlItem::End(n) => ItemView::End(n@),
            XmlItem::Other => ItemView::Other,
        }
    }
}

/// The views of a sequence of items.
pub open spec fn items_view(v: Seq<XmlItem>) -> Seq<ItemView> {
    Seq::new(v.len(), |i: int| v[i]@)
}

/// The value of the last entry with key `k`.
pub open spec fn last_value<V>(s: Seq<(Seq<char>, V)>, k: Seq<char>) -> Option<V>
    decreases s.len(),
{
    if s.len() == 0 {
        None
    } else if s.last().0 == k {
        Some(s.last().1)
    } else {
        last_value(s.drop_last(), k)
    }
}

/// What the markup reader reads from a document: the events up to the first
/// error, and whether there was one.
pub uninterp spec fn xml_read(b: Seq<u8>) -> (Seq<ItemView>, bool);

/// Relies on `xml::reader::EventReader`: the events that it reads from a
/// document, and the error that ends them if any, depend on the bytes alone.
#[verifier::external_body]
fn read_items(b: &[u8]) -> (r: (Vec<XmlItem>, Option<xml::reader::Error>))
    ensures
        r.0@.len() == xml_read(b@).0.len(),
        forall|i: int| 0 <= i < r.0@.len() ==> r.0@[i]@ == xml_read(b@).0[i],
        r.1 is Some == xml_read(b@).1,
{
    let mut items = Vec::new();
    for e in EventReader::new(b) {
        let item = match e {
            Ok(XmlEvent::StartElement { name, attributes, .. }) => {
                let attrs = attributes.into_iter().map(|a| (a.name.local_name, a.value)).collect();
                XmlItem::Start(name.local_name, attrs)
            },
            Ok(XmlEvent::Characters(s)) => XmlItem::Text(s),
            Ok(XmlEvent::EndElement { name }) => XmlItem::End(name.local_name),
            Ok(_) => XmlItem::Other,
            Err(e) => return (items, Some(e)),
        };
        items.push(item);
    }
    (items, None)
}

/// Whether the four characters of `s` from `pos` on are `" to "`.
pub open spec fn separator_at(s: Seq<char>, pos: int) -> bool {
    s.subrange(pos, pos + 4) == seq![' ', 't', 'o', ' ']
}

/// The pieces of `s` from `start` on, when the separators before `pos` have
/// been passed: each separator found going left to right ends a piece, and
/// the search goes on after it.
pub open spec fn split_scan(s: Seq<char>, start: int, pos: int) -> Seq<Seq<char>>
    decreases s.len() - pos,
{
    if pos + 4 > s.len() {
        seq![s.subrange(start, s.len() as int)]
    } else if separator_at(s, pos) {
        seq![s.subrange(start, pos)] + split_scan(s, pos + 4, pos + 4)
    } else {
        split_scan(s, start, pos + 1)
    }
}

/// The pieces of a text between the separators `" to "`.
pub open spec fn split_to(s: Seq<char>) -> Seq<Seq<char>> {
    split_scan(s, 0, 0)
}

/// Relies on `str::split` with the pattern `" to "`: the pieces between the
/// occurrences of the pattern, found from left to right without overlap.
#[verifier::external_body]
fn split_on_to(s: &str) -> (r: Vec<String>)
    ensures
        r@.len() == split_to(s@).len(),
        forall|i: int| 0 <= i < r@.len() ==> r@[i]@ == split_to(s@)[i],
{
    let mut pieces = Vec::new();
    for p in s.split(" to ") {
        pieces.push(p.to_string());
    }
    pieces
}

/// The date that the text `t` names in the form day/month/year.
pub open spec fn date_of_text(t: Seq<char>) -> Option<Date> {
    match parsed_dmy(t) {
        Some(p) => Some(Date { year: p.0, month: p.1, day: p.2 }),
        None => None,
    }
}

/// The first day of the period that the text `"<start> to <end>"` describes,
/// where both dates are read and `start` to `end` is one whole calendar month.
pub open spec fn period_start(value: Seq<char>) -> Option<Date> {
    let parts = split_to(value);
    if parts.len() < 2 {
        None
    } else {
        match (date_of_text(parts[0]), date_of_text(parts[1])) {
            (Some(s), Some(e)) => if s.day == 1 && e == s.month_end() {
                Some(s)
            } else {
                None
            },
            _ => None,
        }
    }
}

/// Reads a reporting period `"<start> to <end>"`, with dates such as
/// `01/Aug/2025`, and returns its first day; `None` where the text is
/// malformed or the dates do not span exactly one calendar month.
pub fn parse_period(value: &str) -> (r: Option<Date>)
    ensures
        r == period_start(value@),
        r matches Some(d) ==> d.valid() && d.day == 1,
{
    let parts = split_on_to(value);
    if parts.len() < 2 {
        return None;
    }
    let start = match parse_dmy(parts[0].as_str()) {
        Some(d) => d,
        None => return None,
    };
    if start.day != 1 {
        return None;
    }
    let end = match parse_dmy(parts[1].as_str()) {
        Some(d) => d,
        None => return None,
    };
    if is_month_period(start, end) {
        Some(start)
    } else {
        None
    }
}

/// What has been read of a document so far.
pub struct ReadView {
    /// The first day of the reporting period, once its attribute was read.
    pub period: Option<Date>,
    /// The completed entries, in document order.
    pub rates: Seq<(Seq<char>, DecimalValue)>,
    /// Inside a currency-code element.
    pub in_code: bool,
    /// Inside a rate element.
    pub in_rate: bool,
    /// The currency code of the current entry.
    pub code: Option<Seq<char>>,
    /// The rate of the current entry.
    pub rate: Option<DecimalValue>,
}

/// Nothing read yet.
pub open spec fn read_start() -> ReadView {
    ReadView {
        period: None,
        rates: Seq::empty(),
        in_code: false,
        in_rate: false,
        code: None,
        rate: None,
    }
}

/// The end of an entry: it must have had a currency code and a rate.
pub open spec fn close_entry(st: ReadView) -> Result<ReadView, ErrorView> {
    match st.code {
        None => match st.period {
            Some(d) => Err(ErrorView::CurrencyNotFound(Seq::empty(), d)),
            None => Err(ErrorView::DateParseError(Seq::empty())),
        },
        Some(c) => match st.rate {
            None => Err(ErrorView::RateParseError(c)),
            Some(v) => Ok(ReadView { rates: st.rates.push((c, v)), code: None, rate: None, ..st }),
        },
    }
}

/// The effect of one event of the reader.
pub open spec fn read_step(st: ReadView, item: ItemView) -> Result<ReadView, ErrorView> {
    match item {
        ItemView::Start(name, attrs) => if name == "exchangeRateMonthList"@ {
            match last_value(attrs, "Period"@) {
                None => Ok(st),
                Some(v) => match period_start(v) {
                    Some(d) => Ok(ReadView { period: Some(d), ..st }),
                    None => Err(ErrorView::DateParseError(v)),
                },
            }
        } else if name == "exchangeRate"@ {
            Ok(ReadView { code: None, rate: None, ..st })
        } else if name == "currencyCode"@ {
            Ok(ReadView { in_code: true, ..st })
        } else if name == "rateNew"@ {
            Ok(ReadView { in_rate: true, ..st })
        } else {
            Ok(st)
        },
        ItemView::Text(t) => if st.in_code {
            Ok(ReadView { code: Some(t), ..st })
        } else if st.in_rate {
            match decimal_of_text(t) {
                Some(v) => Ok(ReadView { rate: Some(v), ..st }),
                None => Err(ErrorView::RateParseError(t)),
            }
        } else {
            Ok(st)
        },
        ItemView::End(name) => if name == "currencyCode"@ {
            Ok(ReadView { in_code: false, ..st })
        } else if name == "rateNew"@ {
            Ok(ReadView { in_rate: false, ..st })
        } else if name == "exchangeRate"@ {
            close_entry(st)
        } else {
            Ok(st)
        },
        ItemView::Other => Ok(st),
    }
}

/// The effect of a sequence of events, or the first error.
pub open spec fn read_all(items: Seq<ItemView>) -> Result<ReadView, ErrorView>
    decreases items.len(),
{
    if items.len() == 0 {
        Ok(read_start())
    } else {
        match read_all(items.drop_last()) {
            Ok(st) => read_step(st, items.last()),
            Err(e) => Err(e),
        }
    }
}

/// The table that a document yields: its period's first day and its rates.
/// `failed` says whether the reader stopped at an error after `items`.
pub open spec fn table_of(items: Seq<ItemView>, failed: bool) -> Result<
    (Date, Seq<(Seq<char>, DecimalValue)>),
    ErrorView,
> {
    match read_all(items) {
        Err(e) => Err(e),
        Ok(st) => if failed {
            Err(ErrorView::XmlParseError)
        } else {
            match st.period {
                Some(d) => Ok((d, st.rates)),
                None => Err(ErrorView::DateParseError(Seq::empty())),
            }
        },
    }
}

/// An error in a prefix of the events is the error of the whole sequence.
proof fn lemma_read_error_stays(items: Seq<ItemView>, k: int)
    requires
        0 <= k <= items.len(),
        read_all(items.take(k)) is Err,
    ensures
        read_all(items) == read_all(items.take(k)),
    decreases items.len() - k,
{
    if k < items.len() {
        assert(items.take(k + 1).drop_last() =~= items.take(k));
        lemma_read_error_stays(items, k + 1);
    } else {
        assert(items.take(k) =~= items);
    }
}

/// The rates of one reporting period.
pub struct RatePeriod {
    /// The first day of the period.
    pub start: Date,
    /// Currency codes, as published, with their rates.
    pub rates: Vec<(String, DecimalValue)>,
}

impl RatePeriod {
    /// The period starts on the first day of a month and its rates are
    /// within the bounds of the number representation.
    pub open spec fn well_formed(&self) -> bool {
        &&& self.start.valid()
        &&& self.start.day == 1
        &&& forall|i: int| 0 <= i < self.rates@.len() ==> (#[trigger] self.rates@[i]).1.valid()
    }

    /// The period as its first day and its rates.
    pub open spec fn view_pair(&self) -> (Date, Seq<(Seq<char>, DecimalValue)>) {
        (self.start, rates_view(self.rates@))
    }
}

/// A table read from a document, or why not.
pub open spec fn table_result_view(r: Result<RatePeriod, ConversionError>) -> Result<
    (Date, Seq<(Seq<char>, DecimalValue)>),
    ErrorView,
> {
    match r {
        Ok(p) => Ok(p.view_pair()),
        Err(e) => Err(e@),
    }
}

/// The state of the reader in executable form.
struct ReadState {
    period: Option<Date>,
    rates: Vec<(String, DecimalValue)>,
    in_code: bool,
    in_rate: bool,
    code: Option<String>,
    rate: Option<DecimalValue>,
}

impl ReadState {
    spec fn view_state(&self) -> ReadView {
        ReadView {
            period: self.period,
            rates: rates_view(self.rates@),
            in_code: self.in_code,
            in_rate: self.in_rate,
            code: match self.code {
                Some(c) => Some(c@),
                None => None,
            },
            rate: self.rate,
        }
    }
}

/// Whether `s` is the text `lit`.
fn is_text(s: &String, lit: &str) -> (r: bool)
    ensures
        r == (s@ == lit@),
{
    let t = String::from_str(lit);
    *s == t
}

/// The value of the last attribute named `k`.
fn find_attribute(attrs: &Vec<(String, String)>, k: &String) -> (r: Option<String>)
    ensures
        match last_value(pairs_view(attrs@), k@) {
            Some(v) => r matches Some(x) && x@ == v,
            None => r is None,
        },
{
    let mut i = attrs.len();
    assert(pairs_view(attrs@).take(i as int) =~= pairs_view(attrs@));
    while i > 0
        invariant
            i <= attrs@.len(),
            last_value(pairs_view(attrs@), k@) == last_value(pairs_view(attrs@).take(i as int), k@),
        decreases i,
    {
        let ghost pre = pairs_view(attrs@).take(i as int);
        assert(pre.drop_last() =~= pairs_view(attrs@).take(i - 1));
        if attrs[i - 1].0 == *k {
            return Some(attrs[i - 1].1.clone());
        }
        i = i - 1;
    }
    assert(pairs_view(attrs@).take(0) =~= Seq::<(Seq<char>, Seq<char>)>::empty());
    None
}

/// Where the rate of the last entry with currency code `k` stands.
pub(crate) fn find_rate(rates: &Vec<(String, DecimalValue)>, k: &String) -> (r: Option<usize>)
    ensures
        match last_value(rates_view(rates@), k@) {
            Some(v) => r matches Some(i) && i < rates@.len() && rates@[i as int].1 == v,
            None => r is None,
        },
{
    let mut i = rates.len();
    assert(rates_view(rates@).take(i as int) =~= rates_view(rates@));
    while i > 0
        invariant
            i <= rates@.len(),
            last_value(rates_view(rates@), k@) == last_value(rates_view(rates@).take(i as int), k@),
        decreases i,
    {
        let ghost pre = rates_view(rates@).take(i as int);
        assert(pre.drop_last() =~= rates_view(rates@).take(i - 1));
        if rates[i - 1].0 == *k {
            return Some(i - 1);
        }
        i = i - 1;
    }
    assert(rates_view(rates@).take(0) =~= Seq::<(Seq<char>, DecimalValue)>::empty());
    None
}

/// Applies one event of the reader to the state.
fn read_step_exec(st: &mut ReadState, item: &XmlItem) -> (r: Result<(), ConversionError>)
    requires
        old(st).period matches Some(d) ==> d.valid() && d.day == 1,
        old(st).rate matches Some(v) ==> v.valid(),
        forall|i: int| 0 <= i < old(st).rates@.len() ==> (#[trigger] old(st).rates@[i]).1.valid(),
    ensures
        final(st).period matches Some(d) ==> d.valid() && d.day == 1,
        final(st).rate matches Some(v) ==> v.valid(),
        forall|i: int| 0 <= i < final(st).rates@.len() ==> (#[trigger] final(st).rates@[i]).1.valid(),
        match read_step(old(st).view_state(), item@) {
            Ok(v) => r is Ok && final(st).view_state() == v,
            Err(e) => r matches Err(x) && x@ == e,
        },
{
    match item {
        XmlItem::Start(name, attrs) => {
            if is_text(name, "exchangeRateMonthList") {
                let key = String::from_str("Period");
                match find_attribute(attrs, &key) {
                    None => {},
                    Some(v) => match parse_period(v.as_str()) {
                        Some(d) => {
                            st.period = Some(d);
                        },
                        None => {
                            return Err(ConversionError::DateParseError(v));
                        },
                    },
                }
            } else if is_text(name, "exchangeRate") {
                st.code = None;
                st.rate = None;
            } else if is_text(name, "currencyCode") {
                st.in_code = true;
            } else if is_text(name, "rateNew") {
                st.in_rate = true;
            }
        },
        XmlItem::Text(t) => {
            if st.in_code {
                st.code = Some(t.clone());
            } else if st.in_rate {
                match DecimalValue::parse(t.as_str()) {
                    Some(v) => {
                        st.rate = Some(v);
                    },
                    None => {
                        return Err(ConversionError::RateParseError(t.clone()));
                    },
                }
            }
        },
        XmlItem::End(name) => {
            if is_text(name, "currencyCode") {
                st.in_code = false;
            } else if is_text(name, "rateNew") {
                st.in_rate = false;
            } else if is_text(name, "exchangeRate") {
                match &st.code {
                    None => {
                        return match st.period {
                            Some(d) => Err(ConversionError::CurrencyNotFound(String::new(), d)),
                            None => Err(ConversionError::DateParseError(String::new())),
                        };
                    },
                    Some(c) => match st.rate {
                        None => {
                            return Err(ConversionError::RateParseError(c.clone()));
                        },
                        Some(v) => {
                            let c2 = c.clone();
                            let ghost before = st.rates@;
                            st.rates.push((c2, v));
                            assert(rates_view(st.rates@) =~= rates_view(before).push((c2@, v)));
                            st.code = None;
                            st.rate = None;
                        },
                    },
                }
            }
        },
        XmlItem::Other => {},
    }
    Ok(())
}

/// The table of a document from the events that the reader produced;
/// `reader_error` is the error that stopped the reader, if one did.
pub fn table_from_items(items: &Vec<XmlItem>, reader_error: Option<xml::reader::Error>) -> (r:
    Result<RatePeriod, ConversionError>)
    ensures
        table_result_view(r) == table_of(items_view(items@), reader_error is Some),
        r matches Ok(p) ==> p.well_formed(),
{
    let ghost iv = items_view(items@);
    let mut st = ReadState {
        period: None,
        rates: Vec::new(),
        in_code: false,
        in_rate: false,
        code: None,
        rate: None,
    };
    assert(rates_view(st.rates@) =~= Seq::<(Seq<char>, DecimalValue)>::empty());
    assert(iv.take(0) =~= Seq::<ItemView>::empty());
    let mut i: usize = 0;
    while i < items.len()
        invariant
            i <= items@.len(),
            iv == items_view(items@),
            read_all(iv.take(i as int)) == Ok::<ReadView, ErrorView>(st.view_state()),
            st.period matches Some(d) ==> d.valid() && d.day == 1,
            st.rate matches Some(v) ==> v.valid(),
            forall|j: int| 0 <= j < st.rates@.len() ==> (#[trigger] st.rates@[j]).1.valid(),
        decreases items@.len() - i,
    {
        assert(iv.take(i + 1).drop_last() =~= iv.take(i as int));
        assert(iv.take(i + 1).last() == items@[i as int]@);
        match read_step_exec(&mut st, &items[i]) {
            Ok(()) => {},
            Err(e) => {
                proof {
                    lemma_read_error_stays(iv, i + 1);
                }
                return Err(e);
            },
        }
        i = i + 1;
    }
    assert(iv.take(i as int) =~= iv);
    match reader_error {
        Some(e) => Err(ConversionError::XmlParseError(e)),
        None => match st.period {
            Some(d) => Ok(RatePeriod { start: d, rates: st.rates }),
            None => Err(ConversionError::DateParseError(String::new())),
        },
    }
}

/// Reads the table of one published document.
pub fn parse_document(xml: &[u8]) -> (r: Result<RatePeriod, ConversionError>)
    ensures
        table_result_view(r) == table_of(xml_read(xml@).0, xml_read(xml@).1),
        r matches Ok(p) ==> p.well_formed(),
{
    let (items, err) = read_items(xml);
    assert(items_view(items@) =~= xml_read(xml@).0);
    table_from_items(&items, err)
}

} // verus!
