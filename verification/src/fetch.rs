//! Where the records are fetched, and why a fetch can fail.

use serde_json::error::Category;
use vstd::prelude::*;

verus! {

#[verifier::external_type_specification]
#[verifier::external_body]
pub struct ExJsonError(serde_json::Error);

/// Where the open-interest series is fetched.
pub const OPEN_INTEREST_HIST_URL: &'static str =
    "https://fapi.binance.com/futures/data/openInterestHist?symbol=BTCUSDT&period=5m";

/// Where the long/short ratio of all accounts is fetched.
pub const GLOBAL_LS_RATIO_URL: &'static str =
    "https://fapi.binance.com/futures/data/globalLongShortAccountRatio?symbol=BTCUSDT&period=5m";

/// Where the long/short ratio of top traders' positions is fetched.
pub const TOP_TRADER_LS_POSITION_RATIO_URL: &'static str =
    "https://fapi.binance.com/futures/data/topLongShortPositionRatio?symbol=BTCUSDT&period=5m";

/// Where the long/short ratio of top traders' accounts is fetched.
pub const TOP_TRADER_LS_ACCOUNT_RATIO_URL: &'static str =
    "https://fapi.binance.com/futures/data/topLongShortAccountRatio?symbol=BTCUSDT&period=5m";

/// Why a fetch gave no records.
#[derive(Clone, Copy, Debug, PartialEq, Eq)]
pub enum FetchError {
    /// The connection or the transport failed.
    NetworkError,
    /// The body could not be read as JSON text.
    DecodeError,
    /// The body is JSON, but not of the expected shape.
    ParseError,
}

/// What went wrong while JSON text was decoded.
#[derive(Clone, Copy, Debug, PartialEq, Eq)]
pub enum JsonFault {
    /// Bytes could not be read.
    Io,
    /// The text is not valid JSON.
    Syntax,
    /// The text is valid JSON of another shape than asked for.
    Data,
    /// The text ends too early.
    Eof,
}

/// The category that `serde_json::Error::classify` gives `error`, as the
/// fault of the same name. It depends on the error alone.
pub uninterp spec fn json_category(error: serde_json::Error) -> JsonFault;

/// `serde_json::Error::classify`, with each category carried over to the
/// fault of the same name. The contract names the result and claims nothing
/// about which fault an error has.
#[verifier::external_body]
fn json_fault(error: &serde_json::Error) -> (fault: JsonFault)
    ensures
        fault == json_category(*error),
{
    match error.classify() {
        Category::Io => JsonFault::Io,
        Category::Syntax => JsonFault::Syntax,
        Category::Data => JsonFault::Data,
        Category::Eof => JsonFault::Eof,
    }
}

/// The fetch error that a decoding fault amounts to: JSON of the wrong shape
/// is a parse error, every other fault a decode error.
pub open spec fn failure_of(fault: JsonFault) -> FetchError {
    match fault {
        JsonFault::Data => FetchError::ParseError,
        _ => FetchError::DecodeError,
    }
}

/// The fetch error that a decoding fault amounts to.
pub fn decode_failure(fault: JsonFault) -> (error: FetchError)
    ensures
        error == failure_of(fault),
{
    match fault {
        JsonFault::Data => FetchError::ParseError,
        _ => FetchError::DecodeError,
    }
}

/// The fetch error that a JSON decoding error amounts to: a parse error where
/// the error's category is that of JSON of the wrong shape, else a decode
/// error.
pub fn json_failure(error: &serde_json::Error) -> (result: FetchError)
    ensures
        result == failure_of(json_category(*error)),
{
    decode_failure(json_fault(error))
}

} // verus!
