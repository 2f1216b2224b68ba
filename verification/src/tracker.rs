//! The last reading of each tracked series, and the change since.

use crate::decimal::{Decimal, Difference};
use vstd::prelude::*;

verus! {

/// A tracked metric series.
#[derive(Clone, Copy, Debug, PartialEq, Eq)]
pub enum Series {
    /// Open interest, in the base asset.
    OpenInterest,
    /// Open interest, as notional value in the quote asset.
    NotionalValue,
    /// Long accounts among all accounts, in percent.
    GlobalLong,
    /// Short accounts among all accounts, in percent.
    GlobalShort,
    /// Long positions of top traders, in percent.
    TopPositionLong,
    /// Short positions of top traders, in percent.
    TopPositionShort,
    /// Long accounts among top traders, in percent.
    TopAccountLong,
    /// Short accounts among top traders, in percent.
    TopAccountShort,
}

/// What an observation amounts to, over units.
pub enum Change {
    /// The series had no reading before.
    NoBaseline { current: int },
    /// The series had a reading before, `diff` units below `current`.
    Delta { current: int, diff: int },
}

/// What an observation reports.
#[derive(Clone, Copy, Debug)]
pub enum ChangeResult {
    /// The first reading of its series.
    NoBaseline { current: Decimal },
    /// A later reading, with its change since the reading before.
    Delta { current: Decimal, diff: Difference },
}

impl View for ChangeResult {
    type V = Change;

    open spec fn view(&self) -> Change {
        match *self {
            ChangeResult::NoBaseline { current } => Change::NoBaseline { current: current@ },
            ChangeResult::Delta { current, diff } => Change::Delta {
                current: current@,
                diff: diff@,
            },
        }
    }
}

/// The last reading of one series, if it has one.
#[derive(Clone, Copy, Debug)]
pub struct ChangeState {
    /// The last reading; it counts only where `has_baseline` holds.
    pub previous_value: Decimal,
    /// Whether the series has been read before.
    pub has_baseline: bool,
}

impl View for ChangeState {
    type V = Option<int>;

    open spec fn view(&self) -> Option<int> {
        if self.has_baseline {
            Some(self.previous_value@)
        } else {
            None
        }
    }
}

/// The change that `current` amounts to against `baseline`.
pub open spec fn change_since(baseline: Option<int>, current: int) -> Change {
    match baseline {
        None => Change::NoBaseline { current },
        Some(previous) => Change::Delta { current, diff: current - previous },
    }
}

impl ChangeState {
    /// The state of a series without a reading.
    pub fn new() -> (state: ChangeState)
        ensures
            state@ is None,
    {
        ChangeState { previous_value: Decimal::zero(), has_baseline: false }
    }

    /// Takes `current` as the last reading and reports its change since the
    /// one before.
    pub fn observe(&mut self, current: Decimal) -> (result: ChangeResult)
        ensures
            result@ == change_since(old(self)@, current@),
            final(self)@ == Some(current@),
    {
        let result = if self.has_baseline {
            ChangeResult::Delta { current, diff: current.minus(&self.previous_value) }
        } else {
            ChangeResult::NoBaseline { current }
        };
        self.previous_value = current;
        self.has_baseline = true;
        result
    }
}

/// The last readings of all tracked series.
#[derive(Clone, Copy, Debug)]
pub struct ChangeTracker {
    open_interest: ChangeState,
    notional_value: ChangeState,
    global_long: ChangeState,
    global_short: ChangeState,
    top_position_long: ChangeState,
    top_position_short: ChangeState,
    top_account_long: ChangeState,
    top_account_short: ChangeState,
}

impl View for ChangeTracker {
    type V = Map<Series, Option<int>>;

    closed spec fn view(&self) -> Map<Series, Option<int>> {
        Map::new(|series: Series| true, |series: Series| self.state_of(series)@)
    }
}

impl ChangeTracker {
    /// The state that `self` keeps for `series`.
    spec fn state_of(self, series: Series) -> ChangeState {
        match series {
            Series::OpenInterest => self.open_interest,
            Series::NotionalValue => self.notional_value,
            Series::GlobalLong => self.global_long,
            Series::GlobalShort => self.global_short,
            Series::TopPositionLong => self.top_position_long,
            Series::TopPositionShort => self.top_position_short,
            Series::TopAccountLong => self.top_account_long,
            Series::TopAccountShort => self.top_account_short,
        }
    }

    /// A tracker in which no series has a reading.
    pub fn new() -> (tracker: ChangeTracker)
        ensures
            forall|series: Series| tracker@[series] is None,
    {
        ChangeTracker {
            open_interest: ChangeState::new(),
            notional_value: ChangeState::new(),
            global_long: ChangeState::new(),
            global_short: ChangeState::new(),
            top_position_long: ChangeState::new(),
            top_position_short: ChangeState::new(),
            top_account_long: ChangeState::new(),
            top_account_short: ChangeState::new(),
        }
    }

    /// Takes `current` as the last reading of `series` and reports its change
    /// since the one before. The other series stay as they are.
    pub fn observe(&mut self, series: Series, current: Decimal) -> (result: ChangeResult)
        ensures
            result@ == change_since(old(self)@[series], current@),
            final(self)@ == old(self)@.insert(series, Some(current@)),
    {
        let result = match series {
            Series::OpenInterest => self.open_interest.observe(current),
            Series::NotionalValue => self.notional_value.observe(current),
            Series::GlobalLong => self.global_long.observe(current),
            Series::GlobalShort => self.global_short.observe(current),
            Series::TopPositionLong => self.top_position_long.observe(current),
            Series::TopPositionShort => self.top_position_short.observe(current),
            Series::TopAccountLong => self.top_account_long.observe(current),
            Series::TopAccountShort => self.top_account_short.observe(current),
        };
        result
    }

    /// The last reading of `series`, if it has one.
    pub fn baseline(&self, series: Series) -> (result: Option<Decimal>)
        ensures
            match result {
                Some(previous) => self@[series] == Some(previous@),
                None => self@[series] is None,
            },
    {
        let state = match series {
            Series::OpenInterest => self.open_interest,
            Series::NotionalValue => self.notional_value,
            Series::GlobalLong => self.global_long,
            Series::GlobalShort => self.global_short,
            Series::TopPositionLong => self.top_position_long,
            Series::TopPositionShort => self.top_position_short,
            Series::TopAccountLong => self.top_account_long,
            Series::TopAccountShort => self.top_account_short,
        };
        if state.has_baseline {
            Some(state.previous_value)
        } else {
            None
        }
    }
}

/// The first observation of a series reports no baseline, and the one after
/// it reports the difference between the two readings.
pub proof fn first_observation_then_delta(
    state: Map<Series, Option<int>>,
    series: Series,
    first: int,
    second: int,
)
    requires
        state[series] is None,
    ensures
        change_since(state[series], first) == (Change::NoBaseline { current: first }),
        change_since(state.insert(series, Some(first))[series], second) == (Change::Delta {
            current: second,
            diff: second - first,
        }),
{
}

/// Observing one series leaves what the others report as it was.
pub proof fn series_are_independent(
    state: Map<Series, Option<int>>,
    observed: Series,
    reading: int,
    other: Series,
    current: int,
)
    requires
        observed != other,
    ensures
        change_since(state.insert(observed, Some(reading))[other], current) == change_since(
            state[other],
            current,
        ),
{
}

/// A series that has a reading keeps having one, whatever is observed.
pub proof fn baseline_is_kept(
    state: Map<Series, Option<int>>,
    observed: Series,
    reading: int,
    series: Series,
)
    requires
        state[series] is Some,
    ensures
        state.insert(observed, Some(reading))[series] is Some,
{
}

} // verus!
