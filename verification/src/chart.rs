//! The measures of the hourly bar chart: one row for each hour of the day,
//! with a bar whose length is the hour's share of the busiest hour.

use std::collections::HashMap;
use vstd::prelude::*;

verus! {

/// The length of the bar of the busiest hour, and of every row's bar and
/// filler together.
pub const MAX_BAR_WIDTH: u32 = 50;

/// The part of the day in which an hour lies.
#[derive(Clone, Copy, Debug, PartialEq, Eq, Structural)]
pub enum DayPeriod {
    /// From 22:00 to 05:59.
    Night,
    /// From 06:00 to 08:59.
    Morning,
    /// From 09:00 to 17:59.
    Day,
    /// From 18:00 to 21:59.
    Evening,
}

/// One row of the chart.
#[derive(Clone, Copy, Debug, PartialEq, Eq, Structural)]
pub struct ChartRow {
    pub hour: u8,
    /// The hour that follows, midnight after 23.
    pub next_hour: u8,
    pub period: DayPeriod,
    pub commits: u32,
    pub bar_width: u32,
    /// What is left of the full width beside the bar.
    pub empty_width: u32,
}

/// The part of the day in which `hour` lies.
pub open spec fn period_of(hour: int) -> DayPeriod {
    if hour <= 5 {
        DayPeriod::Night
    } else if hour <= 8 {
        DayPeriod::Morning
    } else if hour <= 17 {
        DayPeriod::Day
    } else if hour <= 21 {
        DayPeriod::Evening
    } else {
        DayPeriod::Night
    }
}

/// The commits counted for `hour`: none where the histogram has no entry.
pub open spec fn count_at(hourly: Map<u8, u32>, hour: u8) -> u32 {
    if hourly.contains_key(hour) {
        hourly[hour]
    } else {
        0
    }
}

/// The greatest count among the keys below `limit`; 0 if there is none.
pub open spec fn peak_below(hourly: Map<u8, u32>, limit: int) -> int
    decreases limit,
{
    if limit <= 0 {
        0
    } else {
        let rest = peak_below(hourly, limit - 1);
        let count = count_at(hourly, (limit - 1) as u8);
        if count > rest {
            count as int
        } else {
            rest
        }
    }
}

/// The greatest count in the histogram; 0 if it is empty.
pub open spec fn peak(hourly: Map<u8, u32>) -> int {
    peak_below(hourly, 256)
}

/// The length of the bar for `count` commits when the busiest hour has `peak`:
/// the count's share of the full width, rounded down, but never less than 1
/// for an hour that has a commit.
pub open spec fn bar_width_for(count: int, peak: int) -> int {
    if peak > 0 {
        let scaled = (count * 50) / peak;
        let least: int = if count > 0 {
            1
        } else {
            0
        };
        if scaled >= least {
            scaled
        } else {
            least
        }
    } else {
        0
    }
}

/// The row of `hour` in the chart of `hourly`.
pub open spec fn row_for(hourly: Map<u8, u32>, hour: u8) -> ChartRow {
    let width = bar_width_for(count_at(hourly, hour) as int, peak(hourly));
    ChartRow {
        hour,
        next_hour: ((hour + 1) % 24) as u8,
        period: period_of(hour as int),
        commits: count_at(hourly, hour),
        bar_width: width as u32,
        empty_width: (50 - width) as u32,
    }
}

/// No count below `limit` exceeds the greatest of them, and the greatest is
/// the count of one of them unless it is 0.
pub proof fn lemma_peak_below(hourly: Map<u8, u32>, limit: int)
    requires
        0 <= limit <= 256,
    ensures
        0 <= peak_below(hourly, limit) <= u32::MAX,
        forall|hour: u8| hour < limit ==> count_at(hourly, hour) <= peak_below(hourly, limit),
        peak_below(hourly, limit) == 0 || exists|hour: u8|
            hour < limit && count_at(hourly, hour) == peak_below(hourly, limit),
    decreases limit,
{
    if limit > 0 {
        lemma_peak_below(hourly, limit - 1);
        let last = (limit - 1) as u8;
        assert forall|hour: u8| hour < limit implies count_at(hourly, hour) <= peak_below(
            hourly,
            limit,
        ) by {
            if hour < limit - 1 {
            } else {
                assert(hour == last);
            }
        }
        if peak_below(hourly, limit) != 0 {
            if count_at(hourly, last) > peak_below(hourly, limit - 1) {
                assert(last < limit && count_at(hourly, last) == peak_below(hourly, limit));
            } else {
                let hour = choose|hour: u8|
                    hour < limit - 1 && count_at(hourly, hour) == peak_below(hourly, limit - 1);
                assert(hour < limit && count_at(hourly, hour) == peak_below(hourly, limit));
            }
        }
    }
}

/// The part of the day in which `hour` lies.
pub fn day_period(hour: u8) -> (period: DayPeriod)
    ensures
        period == period_of(hour as int),
{
    if hour <= 5 {
        DayPeriod::Night
    } else if hour <= 8 {
        DayPeriod::Morning
    } else if hour <= 17 {
        DayPeriod::Day
    } else if hour <= 21 {
        DayPeriod::Evening
    } else {
        DayPeriod::Night
    }
}

/// The commits counted for `hour` in `hourly`.
pub fn commits_at(hourly: &HashMap<u8, u32>, hour: u8) -> (count: u32)
    ensures
        count == count_at(hourly@, hour),
{
    broadcast use vstd::std_specs::hash::group_hash_axioms;

    match hourly.get(&hour) {
        Some(count) => *count,
        None => 0,
    }
}

/// The count of the busiest hour of `hourly`.
pub fn peak_commits(hourly: &HashMap<u8, u32>) -> (busiest: u32)
    ensures
        busiest == peak(hourly@),
        forall|hour: u8| count_at(hourly@, hour) <= busiest,
        busiest == 0 || exists|hour: u8| count_at(hourly@, hour) == busiest,
{
    let mut busiest: u32 = 0;
    let mut next: usize = 0;
    while next < 256
        invariant
            next <= 256,
            busiest == peak_below(hourly@, next as int),
        decreases 256 - next,
    {
        let count = commits_at(hourly, next as u8);
        if count > busiest {
            busiest = count;
        }
        next = next + 1;
    }
    proof {
        lemma_peak_below(hourly@, 256);
    }
    busiest
}

/// The length of the bar for `count` commits when the busiest hour has `busiest`.
pub fn bar_width(count: u32, busiest: u32) -> (width: u32)
    requires
        count <= busiest,
    ensures
        width == bar_width_for(count as int, busiest as int),
        width <= MAX_BAR_WIDTH,
        count > 0 ==> width >= 1,
{
    if busiest == 0 {
        return 0;
    }
    let wide: u64 = count as u64 * 50;
    let scaled: u64 = wide / busiest as u64;
    proof {
        assert(scaled <= 50) by (nonlinear_arith)
            requires
                scaled == wide / (busiest as u64),
                wide == count * 50,
                count <= busiest,
                busiest > 0,
        ;
    }
    let least: u64 = if count > 0 {
        1
    } else {
        0
    };
    if scaled >= least {
        scaled as u32
    } else {
        least as u32
    }
}

/// The rows of the chart of `hourly_commits`, from hour 0 to hour 23, whether
/// or not an hour has a commit.
pub fn hourly_chart(hourly_commits: &HashMap<u8, u32>) -> (rows: Vec<ChartRow>)
    ensures
        rows.len() == 24,
        forall|hour: u8| hour < 24 ==> rows[hour as int] == row_for(hourly_commits@, hour),
        forall|hour: u8|
            hour < 24 ==> (#[trigger] rows[hour as int]).bar_width + rows[hour as int].empty_width
                == MAX_BAR_WIDTH,
{
    let busiest = peak_commits(hourly_commits);
    let mut rows: Vec<ChartRow> = Vec::new();
    let mut hour: u8 = 0;
    while hour < 24
        invariant
            hour <= 24,
            rows.len() == hour,
            busiest == peak(hourly_commits@),
            forall|h: u8| count_at(hourly_commits@, h) <= busiest,
            forall|h: u8| h < hour ==> rows[h as int] == row_for(hourly_commits@, h),
            forall|h: u8|
                h < hour ==> (#[trigger] rows[h as int]).bar_width + rows[h as int].empty_width
                    == MAX_BAR_WIDTH,
        decreases 24 - hour,
    {
        let commits = commits_at(hourly_commits, hour);
        let width = bar_width(commits, busiest);
        rows.push(
            ChartRow {
                hour,
                next_hour: (hour + 1) % 24,
                period: day_period(hour),
                commits,
                bar_width: width,
                empty_width: MAX_BAR_WIDTH - width,
            },
        );
        hour = hour + 1;
    }
    rows
}

} // verus!
