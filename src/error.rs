//! The ways in which reading rate tables and converting amounts fail.
use crate::date::Date;
use vstd::prelude::*;

verus! {

/// An error of the markup reader, carried through unchanged.
#[verifier::external_type_specification]
#[verifier::external_body]
pub struct ExXmlReaderError(xml::reader::Error);

/// Why a conversion or the reading of a rate table failed.
#[derive(Debug)]
pub enum ConversionError {
    /// The combined input did not consist of exactly an amount and a currency.
    InvalidInputFormat(String),
    /// The table in force on the date has no rate for the currency.
    CurrencyNotFound(String, Date),
    /// No table starts on or before the date.
    DateOutOfRange(Date),
    /// The document is not well-formed markup.
    XmlParseError(xml::reader::Error),
    /// The reporting period is missing, malformed or not one calendar month.
    DateParseError(String),
    /// A rate is not a decimal number, or an entry has no rate.
    RateParseError(String),
    /// The amount is not a decimal number.
    ValueParseError(String),
    /// The amount divided by the rate is not a number of the representation
    /// (a zero rate, or a quotient too large).
    DivisionFailed(String),
}

/// A `ConversionError` with its texts as character sequences.
pub enum ErrorView {
    InvalidInputFormat(Seq<char>),
    CurrencyNotFound(Seq<char>, Date),
    DateOutOfRange(Date),
    XmlParseError,
    DateParseError(Seq<char>),
    RateParseError(Seq<char>),
    ValueParseError(Seq<char>),
    DivisionFailed(Seq<char>),
}

impl View for ConversionError {
    type V = ErrorView;

    open spec fn view(&self) -> ErrorView {
        match self {
            ConversionError::InvalidInputFormat(s) => ErrorView::InvalidInputFormat(s@),
            ConversionError::CurrencyNotFound(c, d) => ErrorView::CurrencyNotFound(c@, *d),
            ConversionError::DateOutOfRange(d) => ErrorView::DateOutOfRange(*d),
            ConversionError::XmlParseError(_) => ErrorView::XmlParseError,
            ConversionError::DateParseError(s) => ErrorView::DateParseError(s@),
            ConversionError::RateParseError(s) => ErrorView::RateParseError(s@),
            ConversionError::ValueParseError(s) => ErrorView::ValueParseError(s@),
            ConversionError::DivisionFailed(s) => ErrorView::DivisionFailed(s@),
        }
    }
}

} // verus!
