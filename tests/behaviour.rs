use hmrc_rates::date::last_day_of_month;
use hmrc_rates::table::parse_period;
use hmrc_rates::{ConversionError, Date, DecimalValue, HMRCMonthlyRatesConverter, GBP};

fn month_document(period: &str, entries: &[(&str, &str)]) -> Vec<u8> {
    let mut doc = String::from("<?xml version=\"1.0\" encoding=\"UTF-8\"?>\n");
    doc.push_str(&format!("<exchangeRateMonthList Period=\"{}\">\n", period));
    for (code, rate) in entries {
        doc.push_str(&format!(
            "  <exchangeRate>\n    <currencyCode>{}</currencyCode>\n    <rateNew>{}</rateNew>\n  </exchangeRate>\n",
            code, rate
        ));
    }
    doc.push_str("</exchangeRateMonthList>\n");
    doc.into_bytes()
}

fn two_months() -> HMRCMonthlyRatesConverter {
    let docs = vec![
        month_document("01/Aug/2025 to 31/Aug/2025", &[("USD", "1.3541"), ("EUR", "1.1547")]),
        month_document("01/Jul/2025 to 31/Jul/2025", &[("USD", "1.3700"), ("EUR", "1.1630")]),
    ];
    HMRCMonthlyRatesConverter::from_documents(&docs).unwrap()
}

fn ymd(y: i32, m: u32, d: u32) -> Date {
    Date::from_ymd_opt(y, m, d).unwrap()
}

fn dec(s: &str) -> DecimalValue {
    DecimalValue::parse(s).unwrap()
}

#[test]
fn period_accepts_whole_months_only() {
    assert_eq!(parse_period("01/Aug/2025 to 31/Aug/2025"), Some(ymd(2025, 8, 1)));
    assert_eq!(parse_period("01/Feb/2024 to 29/Feb/2024"), Some(ymd(2024, 2, 1)));
    assert_eq!(parse_period("01/Feb/2025 to 28/Feb/2025"), Some(ymd(2025, 2, 1)));
    assert_eq!(parse_period("01/Dec/2025 to 31/Dec/2025"), Some(ymd(2025, 12, 1)));
    assert_eq!(parse_period("02/Aug/2025 to 31/Aug/2025"), None);
    assert_eq!(parse_period("01/Aug/2025 to 30/Aug/2025"), None);
    assert_eq!(parse_period("01/Feb/2025 to 29/Feb/2025"), None);
    assert_eq!(parse_period("01/Aug/2025 to 30/Sep/2025"), None);
    assert_eq!(parse_period("01/Aug/2025"), None);
    assert_eq!(parse_period("first to last"), None);
}

#[test]
fn last_days_of_months() {
    assert_eq!(last_day_of_month(2025, 8), 31);
    assert_eq!(last_day_of_month(2025, 9), 30);
    assert_eq!(last_day_of_month(2024, 2), 29);
    assert_eq!(last_day_of_month(1900, 2), 28);
    assert_eq!(last_day_of_month(2000, 2), 29);
    assert_eq!(last_day_of_month(2025, 12), 31);
}

#[test]
fn dates_must_exist() {
    assert!(Date::from_ymd_opt(2025, 2, 29).is_none());
    assert!(Date::from_ymd_opt(2025, 13, 1).is_none());
    assert!(Date::from_ymd_opt(2025, 4, 31).is_none());
    assert!(Date::from_ymd_opt(2025, 1, 0).is_none());
    assert_eq!(Date::from_ymd_opt(2024, 2, 29), Some(Date { year: 2024, month: 2, day: 29 }));
}

#[test]
fn rate_is_found_through_the_period() {
    let c = two_months();
    for day in [1u32, 15, 31] {
        assert_eq!(c.lookup_rate("USD", ymd(2025, 8, day)).unwrap(), dec("1.3541"));
        assert_eq!(c.lookup_rate("USD", ymd(2025, 7, day)).unwrap(), dec("1.3700"));
    }
    assert_eq!(c.lookup_rate("EUR", ymd(2025, 8, 15)).unwrap(), dec("1.1547"));
}

#[test]
fn latest_period_stays_in_force() {
    let c = two_months();
    assert_eq!(c.lookup_rate("USD", ymd(2026, 3, 10)).unwrap(), dec("1.3541"));
    let gbp = c.convert(dec("100.00"), "USD", ymd(2030, 1, 1)).unwrap();
    assert_eq!(gbp.to_string(), "£73.85");
}

#[test]
fn consecutive_periods_switch_on_first_day() {
    let c = two_months();
    assert_eq!(c.convert(dec("100.00"), "USD", ymd(2025, 7, 31)).unwrap().to_string(), "£72.99");
    assert_eq!(c.convert(dec("100.00"), "USD", ymd(2025, 8, 1)).unwrap().to_string(), "£73.85");
}

#[test]
fn failures_of_lookup() {
    let c = two_months();
    match c.lookup_rate("XXX", ymd(2025, 8, 15)) {
        Err(ConversionError::CurrencyNotFound(code, date)) => {
            assert_eq!(code, "XXX");
            assert_eq!(date, ymd(2025, 8, 15));
        }
        other => panic!("unexpected {:?}", other),
    }
    match c.lookup_rate("USD", ymd(2025, 6, 30)) {
        Err(ConversionError::DateOutOfRange(date)) => assert_eq!(date, ymd(2025, 6, 30)),
        other => panic!("unexpected {:?}", other),
    }
    let empty = HMRCMonthlyRatesConverter::new();
    assert!(empty.is_empty());
    assert!(matches!(
        empty.lookup_rate("USD", ymd(2025, 8, 1)),
        Err(ConversionError::DateOutOfRange(_))
    ));
}

#[test]
fn currency_code_is_case_insensitive() {
    let c = two_months();
    let gbp = c.convert(dec("100.00"), "usd", ymd(2025, 8, 15)).unwrap();
    assert_eq!(gbp.to_string(), "£73.85");
    assert!(matches!(c.lookup_rate("usd", ymd(2025, 8, 15)), Err(ConversionError::CurrencyNotFound(_, _))));
}

#[test]
fn conversion_divides_and_rounds() {
    let docs = vec![month_document("01/Aug/2025 to 31/Aug/2025", &[("USD", "1.3542"), ("ONE", "1")])];
    let c = HMRCMonthlyRatesConverter::from_documents(&docs).unwrap();
    let gbp = c.convert(dec("100.00"), "USD", ymd(2025, 8, 15)).unwrap();
    assert_eq!(gbp.to_string(), "£73.84");
    assert_eq!(*gbp.as_decimal(), DecimalValue { mantissa: 7384, scale: 2 });
    assert_eq!(c.convert(dec("0.125"), "ONE", ymd(2025, 8, 15)).unwrap().to_string(), "£0.12");
    assert_eq!(c.convert(dec("0.135"), "ONE", ymd(2025, 8, 15)).unwrap().to_string(), "£0.14");
    assert_eq!(c.convert(dec("7"), "ONE", ymd(2025, 8, 15)).unwrap().to_string(), "£7.00");
    assert_eq!(c.convert(dec("7.5"), "ONE", ymd(2025, 8, 15)).unwrap().to_string(), "£7.50");
    let q = c.convert(dec("7"), "ONE", ymd(2025, 8, 15)).unwrap();
    assert_eq!(*q.as_decimal(), DecimalValue { mantissa: 700, scale: 2 });
}

#[test]
fn combined_text_input() {
    let c = two_months();
    let date = ymd(2025, 8, 15);
    assert_eq!(c.convert_text("100.00 USD", date).unwrap().to_string(), "£73.85");
    assert_eq!(c.convert_text("  100.00\teur ", date).unwrap().to_string(), "£86.60");
    assert!(matches!(c.convert_text("100.00", date), Err(ConversionError::InvalidInputFormat(_))));
    assert!(matches!(c.convert_text("100.00 USD extra", date), Err(ConversionError::InvalidInputFormat(_))));
    assert!(matches!(c.convert_text("", date), Err(ConversionError::InvalidInputFormat(_))));
    match c.convert_text("abc USD", date) {
        Err(ConversionError::ValueParseError(v)) => assert_eq!(v, "abc"),
        other => panic!("unexpected {:?}", other),
    }
}

#[test]
fn whole_quotient_has_two_places() {
    let docs = vec![month_document("01/Aug/2025 to 31/Aug/2025", &[("QQQ", "1.25")])];
    let c = HMRCMonthlyRatesConverter::from_documents(&docs).unwrap();
    assert_eq!(c.convert(dec("100"), "QQQ", ymd(2025, 8, 2)).unwrap().to_string(), "£80.00");
    assert_eq!(c.convert(dec("0"), "QQQ", ymd(2025, 8, 2)).unwrap().to_string(), "£0.00");
}

#[test]
fn huge_whole_quotient_cannot_take_two_places() {
    let docs = vec![month_document("01/Aug/2025 to 31/Aug/2025", &[("ONE", "1")])];
    let c = HMRCMonthlyRatesConverter::from_documents(&docs).unwrap();
    let huge = DecimalValue::new(79228162514264337593543950335, 0).unwrap();
    assert!(matches!(c.convert(huge, "ONE", ymd(2025, 8, 2)), Err(ConversionError::DivisionFailed(_))));
}

#[test]
fn zero_rate_fails_the_division() {
    let docs = vec![month_document("01/Aug/2025 to 31/Aug/2025", &[("ZZZ", "0")])];
    let c = HMRCMonthlyRatesConverter::from_documents(&docs).unwrap();
    assert!(matches!(c.convert(dec("1"), "ZZZ", ymd(2025, 8, 2)), Err(ConversionError::DivisionFailed(_))));
}

#[test]
fn malformed_documents() {
    let bad_rate = month_document("01/Aug/2025 to 31/Aug/2025", &[("USD", "one")]);
    match HMRCMonthlyRatesConverter::from_xml(&bad_rate) {
        Err(ConversionError::RateParseError(t)) => assert_eq!(t, "one"),
        other => panic!("unexpected {:?}", other.err()),
    }
    let bad_markup = b"<exchangeRateMonthList Period=\"01/Aug/2025 to 31/Aug/2025\"><exchangeRate>";
    assert!(matches!(HMRCMonthlyRatesConverter::from_xml(bad_markup), Err(ConversionError::XmlParseError(_))));
    let no_period = b"<exchangeRateMonthList></exchangeRateMonthList>";
    assert!(matches!(HMRCMonthlyRatesConverter::from_xml(no_period), Err(ConversionError::DateParseError(_))));
    let one_date = b"<exchangeRateMonthList Period=\"01/Aug/2025\"></exchangeRateMonthList>";
    match HMRCMonthlyRatesConverter::from_xml(one_date) {
        Err(ConversionError::DateParseError(v)) => assert_eq!(v, "01/Aug/2025"),
        other => panic!("unexpected {:?}", other.err()),
    }
    let no_code = b"<exchangeRateMonthList Period=\"01/Aug/2025 to 31/Aug/2025\"><exchangeRate><rateNew>1.2</rateNew></exchangeRate></exchangeRateMonthList>";
    assert!(matches!(HMRCMonthlyRatesConverter::from_xml(no_code), Err(ConversionError::CurrencyNotFound(_, _))));
    let no_rate = b"<exchangeRateMonthList Period=\"01/Aug/2025 to 31/Aug/2025\"><exchangeRate><currencyCode>USD</currencyCode></exchangeRate></exchangeRateMonthList>";
    assert!(matches!(HMRCMonthlyRatesConverter::from_xml(no_rate), Err(ConversionError::RateParseError(_))));
}

#[test]
fn failing_document_fails_the_whole_set() {
    let docs = vec![
        month_document("01/Aug/2025 to 31/Aug/2025", &[("USD", "1.3541")]),
        month_document("01/Jul/2025 to 30/Jul/2025", &[("USD", "1.3700")]),
    ];
    assert!(matches!(HMRCMonthlyRatesConverter::from_documents(&docs), Err(ConversionError::DateParseError(_))));
    let none: Vec<Vec<u8>> = Vec::new();
    assert!(HMRCMonthlyRatesConverter::from_documents(&none).unwrap().is_empty());
}

#[test]
fn later_document_replaces_same_period() {
    let mut c = two_months();
    c.add_document(&month_document("01/Aug/2025 to 31/Aug/2025", &[("USD", "2")])).unwrap();
    assert_eq!(c.lookup_rate("USD", ymd(2025, 8, 20)).unwrap(), dec("2"));
    assert!(matches!(c.lookup_rate("EUR", ymd(2025, 8, 20)), Err(ConversionError::CurrencyNotFound(_, _))));
    assert_eq!(c.lookup_rate("USD", ymd(2025, 7, 20)).unwrap(), dec("1.3700"));
    assert!(c.add_document(b"<broken").is_err());
    assert_eq!(c.lookup_rate("USD", ymd(2025, 8, 20)).unwrap(), dec("2"));
}

#[test]
fn decimal_values() {
    assert_eq!(dec("1.3541"), DecimalValue { mantissa: 13541, scale: 4 });
    assert_eq!(dec("-2.50"), DecimalValue { mantissa: -250, scale: 2 });
    assert!(DecimalValue::parse("1.2.3").is_none());
    assert!(DecimalValue::new(1, 29).is_none());
    assert_eq!(DecimalValue::new(5, 1), Some(DecimalValue { mantissa: 5, scale: 1 }));
    assert_eq!(DecimalValue { mantissa: 860, scale: 1 }.to_text(), "86.0");
    assert_eq!(GBP(DecimalValue { mantissa: -5, scale: 2 }).to_string(), "£-0.05");
}

#[test]
fn conversion_parts() {
    let c = two_months();
    let date = ymd(2025, 8, 15);
    assert_eq!(c.convert_code(dec("100.00"), "EUR", date).unwrap().to_string(), "£86.60");
    assert!(matches!(c.convert_code(dec("100.00"), "eur", date), Err(ConversionError::CurrencyNotFound(_, _))));
    let tokens = vec![String::from("100.00"), String::from("usd")];
    assert_eq!(c.convert_tokens("100.00 usd", &tokens, date).unwrap().to_string(), "£73.85");
    let one = vec![String::from("100.00")];
    match c.convert_tokens("100.00", &one, date) {
        Err(ConversionError::InvalidInputFormat(s)) => assert_eq!(s, "100.00"),
        other => panic!("unexpected {:?}", other),
    }
}

#[test]
fn default_converter_is_empty() {
    let c = HMRCMonthlyRatesConverter::default();
    assert!(c.is_empty());
    assert!(matches!(c.convert(dec("1"), "USD", ymd(2025, 8, 1)), Err(ConversionError::DateOutOfRange(_))));
}
