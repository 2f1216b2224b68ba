//! The report of one polling cycle.
//!
//! A report has four sections in a fixed order: open interest with its
//! notional value, then the long/short ratio of all accounts, of top traders'
//! positions, and of top traders' accounts. Each section ends with a blank
//! line. A cycle in which a fetch failed or gave no record has an empty report
//! and leaves the tracker as it was.

use crate::decimal::Difference;
use crate::fetch::FetchError;
use crate::format::{
    format_grouped_integer, format_percent_with_delta, format_signed_delta, format_signed_grouped,
    grouped_text, percent_text, signed_grouped_text, signed_text,
};
use crate::parse::{decimal_units, parse_decimal, parse_percent, percent_units};
use crate::record::{
    interest_times, last_maximum, latest_interest, latest_long_short, long_short_times,
    InterestData, LongShortData,
};
use crate::tracker::{change_since, Change, ChangeResult, ChangeTracker, Series};
use vstd::prelude::*;

verus! {

/// A population whose long/short ratio is reported.
#[derive(Clone, Copy, Debug, PartialEq, Eq)]
pub enum RatioFamily {
    /// All accounts.
    Global,
    /// The positions of top traders.
    TopPosition,
    /// The accounts of top traders.
    TopAccount,
}

/// The series that tracks the long share of `family`.
pub open spec fn long_series(family: RatioFamily) -> Series {
    match family {
        RatioFamily::Global => Series::GlobalLong,
        RatioFamily::TopPosition => Series::TopPositionLong,
        RatioFamily::TopAccount => Series::TopAccountLong,
    }
}

/// The series that tracks the short share of `family`.
pub open spec fn short_series(family: RatioFamily) -> Series {
    match family {
        RatioFamily::Global => Series::GlobalShort,
        RatioFamily::TopPosition => Series::TopPositionShort,
        RatioFamily::TopAccount => Series::TopAccountShort,
    }
}

/// The heading of the section of `family`.
pub open spec fn heading(family: RatioFamily) -> Seq<char> {
    match family {
        RatioFamily::Global => "Global Long-Short Ratio"@,
        RatioFamily::TopPosition => "Top Trader Long-Short Position Ratio"@,
        RatioFamily::TopAccount => "Top Trader Long-Short Account Ratio"@,
    }
}

/// What the long share of `family` is called in its section.
pub open spec fn long_label(family: RatioFamily) -> Seq<char> {
    match family {
        RatioFamily::TopPosition => "Long Position: "@,
        _ => "Long Account: "@,
    }
}

/// What the short share of `family` is called in its section.
pub open spec fn short_label(family: RatioFamily) -> Seq<char> {
    match family {
        RatioFamily::TopPosition => "Short Position: "@,
        _ => "Short Account: "@,
    }
}

/// The reading that `change` reports.
pub open spec fn current_of(change: Change) -> int {
    match change {
        Change::NoBaseline { current } => current,
        Change::Delta { current, diff } => current,
    }
}

/// The difference that `change` reports, if it reports one.
pub open spec fn delta_of(change: Change) -> Option<int> {
    match change {
        Change::NoBaseline { current } => None,
        Change::Delta { current, diff } => Some(diff),
    }
}

/// The open-interest section: the interest as a grouped whole number with its
/// change to two places, then the notional value as a grouped whole number
/// with its change as a signed grouped whole number. A reading without a
/// baseline shows a dash for its change.
pub open spec fn interest_text(interest: Change, notional: Change) -> Seq<char> {
    "Open Interest\n"@ + grouped_text(current_of(interest)) + " BTC ("@ + (match delta_of(
        interest,
    ) {
        Some(diff) => signed_text(diff, 2),
        None => " - "@,
    }) + ")\n\nNotional Value of Open Interest\n"@ + grouped_text(current_of(notional))
        + " USDT ("@ + (match delta_of(notional) {
        Some(diff) => signed_grouped_text(diff),
        None => " - "@,
    }) + ")\n\n"@
}

/// The section of `family`: its heading, then the long and the short share in
/// percent, each with its change.
pub open spec fn ratio_text(family: RatioFamily, long: Change, short: Change) -> Seq<char> {
    heading(family) + "\n"@ + long_label(family) + percent_text(current_of(long), delta_of(long))
        + "\n"@ + short_label(family) + percent_text(current_of(short), delta_of(short))
        + "\n\n"@
}

/// The readings of one cycle, in units: amounts as they are, shares in
/// percent.
pub struct Readings {
    pub open_interest: int,
    pub notional_value: int,
    pub global_long: int,
    pub global_short: int,
    pub top_position_long: int,
    pub top_position_short: int,
    pub top_account_long: int,
    pub top_account_short: int,
}

impl Readings {
    /// The reading of `series`.
    pub open spec fn of(self, series: Series) -> int {
        match series {
            Series::OpenInterest => self.open_interest,
            Series::NotionalValue => self.notional_value,
            Series::GlobalLong => self.global_long,
            Series::GlobalShort => self.global_short,
            Series::TopPositionLong => self.top_position_long,
            Series::TopPositionShort => self.top_position_short,
            Series::TopAccountLong => self.top_account_long,
            Series::TopAccountShort => self.top_account_short,
        }
    }
}

/// The readings that the four latest records hold.
pub open spec fn readings_of(
    interest: InterestData,
    global: LongShortData,
    position: LongShortData,
    account: LongShortData,
) -> Readings {
    Readings {
        open_interest: decimal_units(interest.sum_open_interest@),
        notional_value: decimal_units(interest.sum_open_interest_value@),
        global_long: percent_units(global.long_account@),
        global_short: percent_units(global.short_account@),
        top_position_long: percent_units(position.long_account@),
        top_position_short: percent_units(position.short_account@),
        top_account_long: percent_units(account.long_account@),
        top_account_short: percent_units(account.short_account@),
    }
}

/// The report that `readings` give against the baselines `state`.
pub open spec fn report_text(state: Map<Series, Option<int>>, readings: Readings) -> Seq<char> {
    interest_text(
        change_since(state[Series::OpenInterest], readings.open_interest),
        change_since(state[Series::NotionalValue], readings.notional_value),
    ) + ratio_text(
        RatioFamily::Global,
        change_since(state[Series::GlobalLong], readings.global_long),
        change_since(state[Series::GlobalShort], readings.global_short),
    ) + ratio_text(
        RatioFamily::TopPosition,
        change_since(state[Series::TopPositionLong], readings.top_position_long),
        change_since(state[Series::TopPositionShort], readings.top_position_short),
    ) + ratio_text(
        RatioFamily::TopAccount,
        change_since(state[Series::TopAccountLong], readings.top_account_long),
        change_since(state[Series::TopAccountShort], readings.top_account_short),
    )
}

/// The baselines after a cycle with `readings`: each series has its reading.
pub open spec fn state_after(
    state: Map<Series, Option<int>>,
    readings: Readings,
) -> Map<Series, Option<int>> {
    state.insert(Series::OpenInterest, Some(readings.open_interest)).insert(
        Series::NotionalValue,
        Some(readings.notional_value),
    ).insert(Series::GlobalLong, Some(readings.global_long)).insert(
        Series::GlobalShort,
        Some(readings.global_short),
    ).insert(Series::TopPositionLong, Some(readings.top_position_long)).insert(
        Series::TopPositionShort,
        Some(readings.top_position_short),
    ).insert(Series::TopAccountLong, Some(readings.top_account_long)).insert(
        Series::TopAccountShort,
        Some(readings.top_account_short),
    )
}

/// The latest record of a fetch, where it succeeded and gave records.
pub open spec fn fetched_interest(
    fetched: Result<Vec<InterestData>, FetchError>,
) -> Option<InterestData> {
    match fetched {
        Ok(records) => if records@.len() > 0 {
            Some(records@[last_maximum(interest_times(records@))])
        } else {
            None
        },
        Err(_) => None,
    }
}

/// The latest record of a fetch, where it succeeded and gave records.
pub open spec fn fetched_long_short(
    fetched: Result<Vec<LongShortData>, FetchError>,
) -> Option<LongShortData> {
    match fetched {
        Ok(records) => if records@.len() > 0 {
            Some(records@[last_maximum(long_short_times(records@))])
        } else {
            None
        },
        Err(_) => None,
    }
}

/// The series that tracks the long share of `family`.
fn long_series_of(family: RatioFamily) -> (series: Series)
    ensures
        series == long_series(family),
{
    match family {
        RatioFamily::Global => Series::GlobalLong,
        RatioFamily::TopPosition => Series::TopPositionLong,
        RatioFamily::TopAccount => Series::TopAccountLong,
    }
}

/// The series that tracks the short share of `family`.
fn short_series_of(family: RatioFamily) -> (series: Series)
    ensures
        series == short_series(family),
{
    match family {
        RatioFamily::Global => Series::GlobalShort,
        RatioFamily::TopPosition => Series::TopPositionShort,
        RatioFamily::TopAccount => Series::TopAccountShort,
    }
}

/// The difference that `change` reports, if it reports one.
fn difference_in(change: ChangeResult) -> (result: Option<Difference>)
    ensures
        match result {
            Some(diff) => delta_of(change@) == Some(diff@),
            None => delta_of(change@) is None,
        },
{
    match change {
        ChangeResult::NoBaseline { current } => None,
        ChangeResult::Delta { current, diff } => Some(diff),
    }
}

/// Observes the two amounts of `last_funding_history` and writes the
/// open-interest section.
pub fn funding_history_output(
    tracker: &mut ChangeTracker,
    last_funding_history: &InterestData,
) -> (text: String)
    ensures
        text@ == interest_text(
            change_since(
                old(tracker)@[Series::OpenInterest],
                decimal_units(last_funding_history.sum_open_interest@),
            ),
            change_since(
                old(tracker)@[Series::NotionalValue],
                decimal_units(last_funding_history.sum_open_interest_value@),
            ),
        ),
        final(tracker)@ == old(tracker)@.insert(
            Series::OpenInterest,
            Some(decimal_units(last_funding_history.sum_open_interest@)),
        ).insert(
            Series::NotionalValue,
            Some(decimal_units(last_funding_history.sum_open_interest_value@)),
        ),
{
    let interest = parse_decimal(last_funding_history.sum_open_interest.as_str());
    let notional = parse_decimal(last_funding_history.sum_open_interest_value.as_str());
    let interest_change = tracker.observe(Series::OpenInterest, interest);
    let notional_change = tracker.observe(Series::NotionalValue, notional);
    let mut text = String::from_str("Open Interest\n");
    let interest_now = format_grouped_integer(interest);
    text.append(interest_now.as_str());
    text.append(" BTC (");
    match difference_in(interest_change) {
        Some(diff) => {
            let note = format_signed_delta(diff, 2);
            text.append(note.as_str());
        },
        None => {
            text.append(" - ");
        },
    }
    text.append(")\n\nNotional Value of Open Interest\n");
    let notional_now = format_grouped_integer(notional);
    text.append(notional_now.as_str());
    text.append(" USDT (");
    match difference_in(notional_change) {
        Some(diff) => {
            let note = format_signed_grouped(diff);
            text.append(note.as_str());
        },
        None => {
            text.append(" - ");
        },
    }
    text.append(")\n\n");
    text
}

/// Observes the two shares of `last` and writes the section of `family`.
pub fn long_short_output(
    tracker: &mut ChangeTracker,
    family: RatioFamily,
    last: &LongShortData,
) -> (text: String)
    ensures
        text@ == ratio_text(
            family,
            change_since(old(tracker)@[long_series(family)], percent_units(last.long_account@)),
            change_since(old(tracker)@[short_series(family)], percent_units(last.short_account@)),
        ),
        final(tracker)@ == old(tracker)@.insert(
            long_series(family),
            Some(percent_units(last.long_account@)),
        ).insert(short_series(family), Some(percent_units(last.short_account@))),
{
    let long = parse_percent(last.long_account.as_str());
    let short = parse_percent(last.short_account.as_str());
    let long_change = tracker.observe(long_series_of(family), long);
    let short_change = tracker.observe(short_series_of(family), short);
    let mut text = String::from_str(
        match family {
            RatioFamily::Global => "Global Long-Short Ratio",
            RatioFamily::TopPosition => "Top Trader Long-Short Position Ratio",
            RatioFamily::TopAccount => "Top Trader Long-Short Account Ratio",
        },
    );
    text.append("\n");
    text.append(
        match family {
            RatioFamily::TopPosition => "Long Position: ",
            _ => "Long Account: ",
        },
    );
    let long_now = format_percent_with_delta(long, difference_in(long_change));
    text.append(long_now.as_str());
    text.append("\n");
    text.append(
        match family {
            RatioFamily::TopPosition => "Short Position: ",
            _ => "Short Account: ",
        },
    );
    let short_now = format_percent_with_delta(short, difference_in(short_change));
    text.append(short_now.as_str());
    text.append("\n\n");
    text
}

/// The latest record of a fetch, where it succeeded and gave records.
fn usable_interest(
    fetched: &Result<Vec<InterestData>, FetchError>,
) -> (result: Option<&InterestData>)
    ensures
        match result {
            Some(record) => fetched_interest(*fetched) == Some(*record),
            None => fetched_interest(*fetched) is None,
        },
{
    match fetched {
        Ok(records) => latest_interest(records.as_slice()),
        Err(_) => None,
    }
}

/// The latest record of a fetch, where it succeeded and gave records.
fn usable_long_short(
    fetched: &Result<Vec<LongShortData>, FetchError>,
) -> (result: Option<&LongShortData>)
    ensures
        match result {
            Some(record) => fetched_long_short(*fetched) == Some(*record),
            None => fetched_long_short(*fetched) is None,
        },
{
    match fetched {
        Ok(records) => latest_long_short(records.as_slice()),
        Err(_) => None,
    }
}

/// Builds the report of one cycle from what the four fetches gave, in the
/// order open interest, all accounts, top traders' positions, top traders'
/// accounts.
///
/// Where each fetch succeeded and gave records, the latest record of each is
/// observed and reported. Otherwise the report is empty and the tracker
/// stays as it was.
pub fn ratio_fetcher(
    tracker: &mut ChangeTracker,
    open_interest: &Result<Vec<InterestData>, FetchError>,
    global_ratio: &Result<Vec<LongShortData>, FetchError>,
    position_ratio: &Result<Vec<LongShortData>, FetchError>,
    account_ratio: &Result<Vec<LongShortData>, FetchError>,
) -> (report: String)
    ensures
        match (
            fetched_interest(*open_interest),
            fetched_long_short(*global_ratio),
            fetched_long_short(*position_ratio),
            fetched_long_short(*account_ratio),
        ) {
            (Some(interest), Some(global), Some(position), Some(account)) => {
                let readings = readings_of(interest, global, position, account);
                &&& report@ == report_text(old(tracker)@, readings)
                &&& final(tracker)@ == state_after(old(tracker)@, readings)
                &&& report@.len() > 0
            },
            _ => report@ == Seq::<char>::empty() && final(tracker)@ == old(tracker)@,
        },
        forall|series: Series|
            old(tracker)@[series] is Some ==> #[trigger] final(tracker)@[series] is Some,
{
    let interest = match usable_interest(open_interest) {
        Some(record) => record,
        None => {
            return String::new();
        },
    };
    let global = match usable_long_short(global_ratio) {
        Some(record) => record,
        None => {
            return String::new();
        },
    };
    let position = match usable_long_short(position_ratio) {
        Some(record) => record,
        None => {
            return String::new();
        },
    };
    let account = match usable_long_short(account_ratio) {
        Some(record) => record,
        None => {
            return String::new();
        },
    };
    let mut report = funding_history_output(tracker, interest);
    let global_section = long_short_output(tracker, RatioFamily::Global, global);
    report.append(global_section.as_str());
    let position_section = long_short_output(tracker, RatioFamily::TopPosition, position);
    report.append(position_section.as_str());
    let account_section = long_short_output(tracker, RatioFamily::TopAccount, account);
    report.append(account_section.as_str());
    report
}

/// The change from a reading `first` to a reading `second` of one series.
pub open spec fn difference_between(first: int, second: int) -> Change {
    Change::Delta { current: second, diff: second - first }
}

/// The report in which every series shows its reading in `second` with the
/// difference to its reading in `first`.
pub open spec fn differences_text(first: Readings, second: Readings) -> Seq<char> {
    interest_text(
        difference_between(first.open_interest, second.open_interest),
        difference_between(first.notional_value, second.notional_value),
    ) + ratio_text(
        RatioFamily::Global,
        difference_between(first.global_long, second.global_long),
        difference_between(first.global_short, second.global_short),
    ) + ratio_text(
        RatioFamily::TopPosition,
        difference_between(first.top_position_long, second.top_position_long),
        difference_between(first.top_position_short, second.top_position_short),
    ) + ratio_text(
        RatioFamily::TopAccount,
        difference_between(first.top_account_long, second.top_account_long),
        difference_between(first.top_account_short, second.top_account_short),
    )
}

/// A cycle that follows another reports, for every series, the difference
/// between its reading and that of the cycle before, whatever the baselines
/// were before the two.
pub proof fn second_cycle_reports_differences(
    state: Map<Series, Option<int>>,
    first: Readings,
    second: Readings,
)
    ensures
        forall|series: Series|
            change_since(#[trigger] state_after(state, first)[series], second.of(series))
                == difference_between(first.of(series), second.of(series)),
        report_text(state_after(state, first), second) == differences_text(first, second),
{
}

/// After a cycle every series has its reading of that cycle as baseline.
pub proof fn cycle_sets_every_baseline(state: Map<Series, Option<int>>, readings: Readings)
    ensures
        forall|series: Series|
            #[trigger] state_after(state, readings)[series] == Some(readings.of(series)),
{
}

/// The first cycle of a tracker without baselines shows a dash for every
/// change.
pub proof fn first_cycle_reports_no_change(state: Map<Series, Option<int>>, readings: Readings)
    requires
        forall|series: Series| state[series] is None,
    ensures
        forall|series: Series|
            change_since(#[trigger] state[series], readings.of(series)) == (Change::NoBaseline {
                current: readings.of(series),
            }),
{
}

} // verus!
