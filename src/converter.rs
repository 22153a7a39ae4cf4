//! The converter: periods ordered by their first day, the rate in force on a
//! date, and the conversion into pounds.
use crate::date::Date;
use crate::decimal::{
    checked_quotient, quotient_of, round_to_places, widen_to_two_places, DecimalValue, GBP,
};
use crate::error::{ConversionError, ErrorView};
use crate::decimal::decimal_of_text;
use crate::table::{find_rate, last_value, parse_document, rates_view, table_of, xml_read, RatePeriod};
use vstd::prelude::*;

verus! {

/// A period as its first day and its currency codes with their rates.
pub type PeriodView = (Date, Seq<(Seq<char>, DecimalValue)>);

/// The number of periods of `t` that start on or before the day with key `k`.
pub open spec fn count_started(t: Seq<PeriodView>, k: int) -> nat
    decreases t.len(),
{
    if t.len() == 0 {
        0
    } else {
        count_started(t.drop_last(), k) + if t.last().0.key() <= k {
            1nat
        } else {
            0nat
        }
    }
}

/// The periods are in strictly increasing order of their first day, each of
/// which is the first day of a month, and all rates are within bounds.
pub open spec fn table_wf(t: Seq<PeriodView>) -> bool {
    &&& forall|i: int, j: int| 0 <= i < j < t.len() ==> (#[trigger] t[i]).0.key() < (#[trigger] t[j]).0.key()
    &&& forall|i: int| 0 <= i < t.len() ==> (#[trigger] t[i]).0.valid() && t[i].0.day == 1
    &&& forall|i: int, j: int|
        0 <= i < t.len() && 0 <= j < t[i].1.len() ==> (#[trigger] t[i].1[j]).1.valid()
}

/// The rates in force on `d`: those of the last period that starts on or
/// before `d`, if there is one.
pub open spec fn rates_in_force(t: Seq<PeriodView>, d: Date) -> Option<Seq<(Seq<char>, DecimalValue)>> {
    let n = count_started(t, d.key());
    if n == 0 {
        None
    } else {
        Some(t[n - 1].1)
    }
}

/// The rate for currency `c` in force on `d`.
pub open spec fn rate_in_force(t: Seq<PeriodView>, c: Seq<char>, d: Date) -> Result<DecimalValue, ErrorView> {
    match rates_in_force(t, d) {
        None => Err(ErrorView::DateOutOfRange(d)),
        Some(rates) => match last_value(rates, c) {
            Some(r) => Ok(r),
            None => Err(ErrorView::CurrencyNotFound(c, d)),
        },
    }
}

/// `t` with period `p` added: in its place by first day, replacing a period
/// with the same first day.
pub open spec fn with_period(t: Seq<PeriodView>, p: PeriodView) -> Seq<PeriodView> {
    let n = count_started(t, p.0.key()) as int;
    if n > 0 && t[n - 1].0 == p.0 {
        t.update(n - 1, p)
    } else {
        t.insert(n, p)
    }
}

/// A period's rates are in force from its first day up to the day before
/// the next period starts, or on every later day where it is the last.
pub proof fn lemma_period_in_force(t: Seq<PeriodView>, i: int, d: Date)
    requires
        table_wf(t),
        0 <= i < t.len(),
        t[i].0.key() <= d.key(),
        i + 1 < t.len() ==> d.key() < t[i + 1].0.key(),
    ensures
        rates_in_force(t, d) == Some(t[i].1),
{
    assert forall|l: int| 0 <= l < i + 1 implies (#[trigger] t[l]).0.key() <= d.key() by {
        if l < i {
            assert(t[l].0.key() < t[i].0.key());
        }
    }
    assert forall|l: int| i + 1 <= l < t.len() implies (#[trigger] t[l]).0.key() > d.key() by {
        if l > i + 1 {
            assert(t[i + 1].0.key() < t[l].0.key());
        }
    }
    lemma_count_started(t, d.key(), i + 1);
}

/// A table that holds a period whose rate for currency `c` is `r` answers
/// `r` for `c` on every date from the period's first day up to the day
/// before the next period starts, or on every later date where it is the
/// last period.
pub proof fn lemma_rate_round_trip(t: Seq<PeriodView>, i: int, c: Seq<char>, r: DecimalValue, d: Date)
    requires
        table_wf(t),
        0 <= i < t.len(),
        last_value(t[i].1, c) == Some(r),
        t[i].0.key() <= d.key(),
        i + 1 < t.len() ==> d.key() < t[i + 1].0.key(),
    ensures
        rate_in_force(t, c, d) == Ok::<DecimalValue, ErrorView>(r),
{
    lemma_period_in_force(t, i, d);
}

/// A period's rates are in force on its first day and on the last day of
/// its month.
pub proof fn lemma_period_bounds(t: Seq<PeriodView>, i: int)
    requires
        table_wf(t),
        0 <= i < t.len(),
    ensures
        rates_in_force(t, t[i].0) == Some(t[i].1),
        rates_in_force(t, t[i].0.month_end()) == Some(t[i].1),
{
    let s = t[i].0;
    lemma_period_in_force(t, i, s);
    if i + 1 < t.len() {
        let n = t[i + 1].0;
        crate::date::lemma_key_order(s, n);
        crate::date::lemma_month_end_before_next(s, n);
    }
    lemma_period_in_force(t, i, s.month_end());
}

/// Of two consecutive periods, the first is in force on the dates before
/// the second starts, and the second from its first day until a third
/// period starts.
pub proof fn lemma_consecutive_periods(t: Seq<PeriodView>, i: int, d: Date)
    requires
        table_wf(t),
        0 <= i,
        i + 1 < t.len(),
    ensures
        t[i].0.key() <= d.key() < t[i + 1].0.key() ==> rates_in_force(t, d) == Some(t[i].1),
        t[i + 1].0.key() <= d.key() && (i + 2 < t.len() ==> d.key() < t[i + 2].0.key())
            ==> rates_in_force(t, d) == Some(t[i + 1].1),
{
    if t[i].0.key() <= d.key() < t[i + 1].0.key() {
        lemma_period_in_force(t, i, d);
    }
    if t[i + 1].0.key() <= d.key() && (i + 2 < t.len() ==> d.key() < t[i + 2].0.key()) {
        lemma_period_in_force(t, i + 1, d);
    }
}

/// A date before the first period is out of range, and a currency missing
/// from the rates in force on a date is not found.
pub proof fn lemma_lookup_failures(t: Seq<PeriodView>, c: Seq<char>, d: Date)
    requires
        table_wf(t),
    ensures
        t.len() == 0 || d.key() < t[0].0.key() ==> rate_in_force(t, c, d) == Err::<DecimalValue, ErrorView>(ErrorView::DateOutOfRange(d)),
        rates_in_force(t, d) matches Some(rates) && last_value(rates, c) is None
            ==> rate_in_force(t, c, d) == Err::<DecimalValue, ErrorView>(ErrorView::CurrencyNotFound(c, d)),
{
    if t.len() == 0 || d.key() < t[0].0.key() {
        assert forall|l: int| 0 <= l < t.len() implies (#[trigger] t[l]).0.key() > d.key() by {
            if l > 0 {
                assert(t[0].0.key() < t[l].0.key());
            }
        }
        lemma_count_started(t, d.key(), 0);
    }
}

/// In an ordered table, the periods that start on or before `k` are the
/// first `j`, where `j` is where the first days pass `k`.
proof fn lemma_count_started(t: Seq<PeriodView>, k: int, j: int)
    requires
        0 <= j <= t.len(),
        forall|i: int| 0 <= i < j ==> (#[trigger] t[i]).0.key() <= k,
        forall|i: int| j <= i < t.len() ==> (#[trigger] t[i]).0.key() > k,
    ensures
        count_started(t, k) == j,
    decreases t.len(),
{
    if t.len() > 0 {
        let s = t.drop_last();
        if j == t.len() {
            assert forall|i: int| 0 <= i < j - 1 implies (#[trigger] s[i]).0.key() <= k by {
                assert(s[i] == t[i]);
            }
            lemma_count_started(s, k, j - 1);
        } else {
            assert forall|i: int| 0 <= i < j implies (#[trigger] s[i]).0.key() <= k by {
                assert(s[i] == t[i]);
            }
            assert forall|i: int| j <= i < s.len() implies (#[trigger] s[i]).0.key() > k by {
                assert(s[i] == t[i]);
            }
            lemma_count_started(s, k, j);
        }
    }
}

/// A converter holding the rate tables of any number of periods.
pub struct HMRCMonthlyRatesConverter {
    periods: Vec<RatePeriod>,
}

impl View for HMRCMonthlyRatesConverter {
    type V = Seq<PeriodView>;

    closed spec fn view(&self) -> Seq<PeriodView> {
        Seq::new(self.periods@.len(), |i: int| self.periods@[i].view_pair())
    }
}

impl Default for HMRCMonthlyRatesConverter {
    /// A converter with no periods.
    fn default() -> (r: Self)
        ensures
            r@ == Seq::<PeriodView>::empty(),
            r.wf(),
    {
        Self::new()
    }
}

/// The outcome of a conversion, with the error as its view.
pub open spec fn gbp_result_view(r: Result<GBP, ConversionError>) -> Result<DecimalValue, ErrorView> {
    match r {
        Ok(g) => Ok(g.0),
        Err(e) => Err(e@),
    }
}

/// The outcome of a rate lookup, with the error as its view.
pub open spec fn rate_result_view(r: Result<DecimalValue, ConversionError>) -> Result<DecimalValue, ErrorView> {
    match r {
        Ok(v) => Ok(v),
        Err(e) => Err(e@),
    }
}

/// `amount` divided by the rate for `c` in force on `d`, rounded to two
/// fractional digits and written with exactly two.
pub open spec fn converted(t: Seq<PeriodView>, amount: DecimalValue, c: Seq<char>, d: Date) -> Result<
    DecimalValue,
    ErrorView,
> {
    match rate_in_force(t, c, d) {
        Err(e) => Err(e),
        Ok(rate) => match quotient_of(amount, rate) {
            Some(q) => match q.two_places() {
                Some(x) => Ok(x),
                None => Err(ErrorView::DivisionFailed(c)),
            },
            None => Err(ErrorView::DivisionFailed(c)),
        },
    }
}

/// The conversion of a text `input` whose tokens are `toks`: an amount and
/// a currency.
pub open spec fn converted_tokens(t: Seq<PeriodView>, input: Seq<char>, toks: Seq<Seq<char>>, d: Date) -> Result<
    DecimalValue,
    ErrorView,
> {
    if toks.len() != 2 {
        Err(ErrorView::InvalidInputFormat(input))
    } else {
        match decimal_of_text(toks[0]) {
            None => Err(ErrorView::ValueParseError(toks[0])),
            Some(a) => converted(t, a, upper_of(toks[1]), d),
        }
    }
}

/// The upper-case form of a text.
pub uninterp spec fn upper_of(s: Seq<char>) -> Seq<char>;

/// Relies on `str::to_uppercase`: the result depends on the text alone.
#[verifier::external_body]
fn to_upper(s: &str) -> (r: String)
    ensures
        r@ == upper_of(s@),
{
    s.to_uppercase()
}

/// Whether `c` has Unicode's White_Space property.
pub open spec fn is_white_space(c: char) -> bool {
    let n = c as u32;
    (0x9 <= n <= 0xd) || n == 0x20 || n == 0x85 || n == 0xa0 || n == 0x1680 || (0x2000 <= n
        <= 0x200a) || n == 0x2028 || n == 0x2029 || n == 0x202f || n == 0x205f || n == 0x3000
}

/// The tokens of `s` from `pos` on, where the characters from `start` to
/// `pos` are the start of an open token (none where they are equal).
pub open spec fn tokens_scan(s: Seq<char>, start: int, pos: int) -> Seq<Seq<char>>
    decreases s.len() - pos,
{
    let open_token = if start < pos {
        seq![s.subrange(start, pos)]
    } else {
        Seq::empty()
    };
    if pos >= s.len() {
        open_token
    } else if is_white_space(s[pos]) {
        open_token + tokens_scan(s, pos + 1, pos + 1)
    } else {
        tokens_scan(s, start, pos + 1)
    }
}

/// The tokens of a text: its longest runs of characters that are not white
/// space, in order.
pub open spec fn whitespace_tokens(s: Seq<char>) -> Seq<Seq<char>> {
    tokens_scan(s, 0, 0)
}

/// Relies on `str::split_whitespace`: the pieces of the text between runs
/// of characters with the White_Space property, without empty pieces.
#[verifier::external_body]
fn split_tokens(s: &str) -> (r: Vec<String>)
    ensures
        r@.len() == whitespace_tokens(s@).len(),
        forall|i: int| 0 <= i < r@.len() ==> r@[i]@ == whitespace_tokens(s@)[i],
{
    let mut tokens = Vec::new();
    for t in s.split_whitespace() {
        tokens.push(t.to_string());
    }
    tokens
}

/// The documents as byte sequences.
pub open spec fn docs_view(docs: Seq<Vec<u8>>) -> Seq<Seq<u8>> {
    Seq::new(docs.len(), |i: int| docs[i]@)
}

/// The table built from documents read in order, each adding its period;
/// the first error if one fails.
pub open spec fn tables_from(docs: Seq<Seq<u8>>) -> Result<Seq<PeriodView>, ErrorView>
    decreases docs.len(),
{
    if docs.len() == 0 {
        Ok(Seq::empty())
    } else {
        match tables_from(docs.drop_last()) {
            Err(e) => Err(e),
            Ok(t) => match table_of(xml_read(docs.last()).0, xml_read(docs.last()).1) {
                Ok(p) => Ok(with_period(t, p)),
                Err(e) => Err(e),
            },
        }
    }
}

/// An error in the first documents is the error of all of them.
proof fn lemma_tables_error_stays(docs: Seq<Seq<u8>>, k: int)
    requires
        0 <= k <= docs.len(),
        tables_from(docs.take(k)) is Err,
    ensures
        tables_from(docs) == tables_from(docs.take(k)),
    decreases docs.len() - k,
{
    if k < docs.len() {
        assert(docs.take(k + 1).drop_last() =~= docs.take(k));
        lemma_tables_error_stays(docs, k + 1);
    } else {
        assert(docs.take(k) =~= docs);
    }
}

impl HMRCMonthlyRatesConverter {
    /// The table is ordered and its contents within bounds.
    pub open spec fn wf(&self) -> bool {
        table_wf(self@)
    }

    /// A converter with no periods.
    pub fn new() -> (r: Self)
        ensures
            r@ == Seq::<PeriodView>::empty(),
            r.wf(),
    {
        let r = HMRCMonthlyRatesConverter { periods: Vec::new() };
        assert(r@ =~= Seq::<PeriodView>::empty());
        r
    }

    /// Whether the converter holds no period.
    pub fn is_empty(&self) -> (r: bool)
        ensures
            r == (self@.len() == 0),
    {
        self.periods.len() == 0
    }

    /// The number of periods that start on or before the day with key `k`.
    fn count_started_exec(&self, k: i64) -> (r: usize)
        requires
            self.wf(),
        ensures
            r == count_started(self@, k as int),
            r <= self@.len(),
            forall|i: int| 0 <= i < r ==> (#[trigger] self@[i]).0.key() <= k,
            forall|i: int| r <= i < self@.len() ==> (#[trigger] self@[i]).0.key() > k,
    {
        let ghost t = self@;
        let mut lo: usize = 0;
        let mut hi: usize = self.periods.len();
        while lo < hi
            invariant
                t == self@,
                table_wf(t),
                lo <= hi <= t.len(),
                t.len() == self.periods@.len(),
                forall|i: int| 0 <= i < lo ==> (#[trigger] t[i]).0.key() <= k,
                forall|i: int| hi <= i < t.len() ==> (#[trigger] t[i]).0.key() > k,
            decreases hi - lo,
        {
            let mid = lo + (hi - lo) / 2;
            assert(t[mid as int].0 == self.periods@[mid as int].start);
            if self.periods[mid].start.key_exec() <= k {
                assert forall|i: int| 0 <= i <= mid implies (#[trigger] t[i]).0.key() <= k by {
                    if i < mid {
                        assert(t[i].0.key() < t[mid as int].0.key());
                    }
                }
                lo = mid + 1;
            } else {
                assert forall|i: int| mid <= i < t.len() implies (#[trigger] t[i]).0.key() > k by {
                    if i > mid {
                        assert(t[mid as int].0.key() < t[i].0.key());
                    }
                }
                hi = mid;
            }
        }
        proof {
            lemma_count_started(t, k as int, lo as int);
        }
        lo
    }

    /// The rate for currency code `currency`, taken as it is, in force on
    /// `date`: that of the last period starting on or before `date`.
    pub fn lookup_rate(&self, currency: &str, date: Date) -> (r: Result<DecimalValue, ConversionError>)
        requires
            self.wf(),
        ensures
            rate_result_view(r) == rate_in_force(self@, currency@, date),
            r matches Ok(v) ==> v.valid(),
    {
        let n = self.count_started_exec(date.key_exec());
        if n == 0 {
            return Err(ConversionError::DateOutOfRange(date));
        }
        let code = String::from_str(currency);
        let p = &self.periods[n - 1];
        assert(self@[n - 1].1 == rates_view(p.rates@));
        match find_rate(&p.rates, &code) {
            Some(i) => {
                assert(self@[n - 1].1[i as int] == (p.rates@[i as int].0@, p.rates@[i as int].1));
                Ok(p.rates[i].1)
            },
            None => Err(ConversionError::CurrencyNotFound(code, date)),
        }
    }

    /// `amount` in pounds: divided by the rate in force on `date` for the
    /// currency code `code`, taken as it is, rounded to two fractional digits
    /// and written with exactly two.
    pub fn convert_code(&self, amount: DecimalValue, code: &str, date: Date) -> (r: Result<GBP, ConversionError>)
        requires
            self.wf(),
            amount.valid(),
        ensures
            gbp_result_view(r) == converted(self@, amount, code@, date),
            r matches Ok(g) ==> g.0.valid() && g.0.scale == 2,
    {
        let rate = match self.lookup_rate(code, date) {
            Ok(v) => v,
            Err(e) => {
                return Err(e);
            },
        };
        match checked_quotient(&amount, &rate) {
            Some(q) => match widen_to_two_places(round_to_places(&q, 2)) {
                Some(x) => Ok(GBP(x)),
                None => Err(ConversionError::DivisionFailed(String::from_str(code))),
            },
            None => Err(ConversionError::DivisionFailed(String::from_str(code))),
        }
    }

    /// `amount` in pounds: divided by the rate in force on `date` for the
    /// currency `currency` in upper case, rounded to two fractional digits
    /// and written with exactly two.
    pub fn convert(&self, amount: DecimalValue, currency: &str, date: Date) -> (r: Result<GBP, ConversionError>)
        requires
            self.wf(),
            amount.valid(),
        ensures
            gbp_result_view(r) == converted(self@, amount, upper_of(currency@), date),
            r matches Ok(g) ==> g.0.valid() && g.0.scale == 2,
    {
        let code = to_upper(currency);
        self.convert_code(amount, code.as_str(), date)
    }

    /// Converts the whitespace-separated tokens `tokens` of the text
    /// `input`: there must be exactly two, an amount and a currency.
    pub fn convert_tokens(&self, input: &str, tokens: &Vec<String>, date: Date) -> (r: Result<GBP, ConversionError>)
        requires
            self.wf(),
        ensures
            gbp_result_view(r) == converted_tokens(self@, input@, Seq::new(tokens@.len(), |i: int| tokens@[i]@), date),
            r matches Ok(g) ==> g.0.valid() && g.0.scale == 2,
    {
        if tokens.len() != 2 {
            return Err(ConversionError::InvalidInputFormat(String::from_str(input)));
        }
        match DecimalValue::parse(tokens[0].as_str()) {
            Some(amount) => self.convert(amount, tokens[1].as_str(), date),
            None => Err(ConversionError::ValueParseError(tokens[0].clone())),
        }
    }

    /// Converts a text `"<amount> <currency>"`: exactly two tokens separated
    /// by white space, the first a decimal number.
    pub fn convert_text(&self, input: &str, date: Date) -> (r: Result<GBP, ConversionError>)
        requires
            self.wf(),
        ensures
            gbp_result_view(r) == converted_tokens(self@, input@, whitespace_tokens(input@), date),
            r matches Ok(g) ==> g.0.valid() && g.0.scale == 2,
    {
        let tokens = split_tokens(input);
        assert(Seq::new(tokens@.len(), |i: int| tokens@[i]@) =~= whitespace_tokens(input@));
        self.convert_tokens(input, &tokens, date)
    }

    /// Adds a period, replacing one with the same first day.
    fn add_period(&mut self, p: RatePeriod)
        requires
            old(self).wf(),
            p.well_formed(),
        ensures
            final(self)@ == with_period(old(self)@, p.view_pair()),
            final(self).wf(),
    {
        let ghost t = self@;
        let ghost pv = p.view_pair();
        let n = self.count_started_exec(p.start.key_exec());
        if n > 0 && self.periods[n - 1].start == p.start {
            self.periods.set(n - 1, p);
            assert(self@ =~= t.update(n - 1, pv));
        } else {
            proof {
                if n > 0 {
                    crate::date::lemma_key_order(t[n - 1].0, pv.0);
                }
            }
            self.periods.insert(n, p);
            assert(self@ =~= t.insert(n as int, pv));
        }
    }

    /// Reads one document and adds its period, replacing one with the same
    /// first day; on an error the converter is left as it was.
    pub fn add_document(&mut self, xml: &[u8]) -> (r: Result<(), ConversionError>)
        requires
            old(self).wf(),
        ensures
            final(self).wf(),
            match table_of(xml_read(xml@).0, xml_read(xml@).1) {
                Ok(p) => r is Ok && final(self)@ == with_period(old(self)@, p),
                Err(e) => r matches Err(x) && x@ == e && final(self)@ == old(self)@,
            },
    {
        match parse_document(xml) {
            Ok(p) => {
                self.add_period(p);
                Ok(())
            },
            Err(e) => Err(e),
        }
    }

    /// A converter with the periods of all the documents, a later one
    /// replacing an earlier one with the same first day; the first error if
    /// any document cannot be read.
    pub fn from_documents(docs: &Vec<Vec<u8>>) -> (r: Result<Self, ConversionError>)
        ensures
            r matches Ok(c) ==> c.wf(),
            match tables_from(docs_view(docs@)) {
                Ok(t) => r matches Ok(c) && c@ == t,
                Err(e) => r matches Err(x) && x@ == e,
            },
    {
        let ghost dv = docs_view(docs@);
        let mut c = Self::new();
        assert(dv.take(0) =~= Seq::<Seq<u8>>::empty());
        let mut i: usize = 0;
        while i < docs.len()
            invariant
                i <= docs@.len(),
                dv == docs_view(docs@),
                c.wf(),
                tables_from(dv.take(i as int)) == Ok::<Seq<PeriodView>, ErrorView>(c@),
            decreases docs@.len() - i,
        {
            assert(dv.take(i + 1).drop_last() =~= dv.take(i as int));
            assert(dv.take(i + 1).last() == docs@[i as int]@);
            match c.add_document(docs[i].as_slice()) {
                Ok(()) => {},
                Err(e) => {
                    proof {
                        lemma_tables_error_stays(dv, i + 1);
                    }
                    return Err(e);
                },
            }
            i = i + 1;
        }
        assert(dv.take(i as int) =~= dv);
        Ok(c)
    }

    /// A converter with the one period of a document.
    pub fn from_xml(xml: &[u8]) -> (r: Result<Self, ConversionError>)
        ensures
            r matches Ok(c) ==> c.wf(),
            match table_of(xml_read(xml@).0, xml_read(xml@).1) {
                Ok(p) => r matches Ok(c) && c@ == seq![p],
                Err(e) => r matches Err(x) && x@ == e,
            },
    {
        let mut c = Self::new();
        match c.add_document(xml) {
            Ok(()) => {
                assert(with_period(Seq::<PeriodView>::empty(), table_of(xml_read(xml@).0, xml_read(xml@).1)->Ok_0) =~= seq![table_of(xml_read(xml@).0, xml_read(xml@).1)->Ok_0]);
                Ok(c)
            },
            Err(e) => Err(e),
        }
    }
}

} // verus!
