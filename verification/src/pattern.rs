//! The work-pattern heuristic: when, by hour of day and day of week, a
//! contributor tends to commit.

use crate::instant::{hour_of, is_weekend_at, Instant};
use vstd::prelude::*;

verus! {

/// Fewer commits than this tell nothing about a contributor's habits.
pub const MIN_SAMPLE: u32 = 5;

/// The label that sums up a contributor's habits.
#[derive(Clone, Copy, Debug, PartialEq, Eq, Structural)]
pub enum PatternType {
    DayWorker,
    Moonlighter,
    Mixed,
    Unknown,
}

/// How strongly the commits match the label: the exact ratio
/// `numerator / denominator`, between 0 and 1.
#[derive(Clone, Copy, Debug, PartialEq, Eq, Structural)]
pub struct Confidence {
    pub numerator: u64,
    pub denominator: u64,
}

/// A contributor's commits counted by time of day and by weekend, with the
/// label and confidence drawn from those counts.
#[derive(Clone, Copy, Debug, PartialEq, Eq, Structural)]
pub struct WorkPattern {
    pub pattern_type: PatternType,
    /// Commits from 09:00 up to, but not including, 18:00.
    pub day_commits: u32,
    /// Commits at every other hour.
    pub night_commits: u32,
    /// Commits on a Saturday or Sunday, whatever the hour.
    pub weekend_commits: u32,
    pub confidence: Confidence,
}

/// Whether the instant `secs` falls in the working day, 09:00 to 17:59.
pub open spec fn is_day_at(secs: int) -> bool {
    9 <= hour_of(secs) < 18
}

/// The instants of a list as seconds from the epoch.
pub open spec fn times_of(instants: Seq<Instant>) -> Seq<int> {
    instants.map_values(|t: Instant| t@)
}

/// The predicate "falls in the working day".
pub open spec fn by_day() -> spec_fn(int) -> bool {
    |secs: int| is_day_at(secs)
}

/// The predicate "falls outside the working day".
pub open spec fn by_night() -> spec_fn(int) -> bool {
    |secs: int| !is_day_at(secs)
}

/// The predicate "falls on a weekend".
pub open spec fn on_weekend() -> spec_fn(int) -> bool {
    |secs: int| is_weekend_at(secs)
}

/// How many of `times` satisfy `pred`.
pub open spec fn count_where(times: Seq<int>, pred: spec_fn(int) -> bool) -> nat {
    times.filter(pred).len()
}

/// The label for `day` day commits, `night` night commits and `weekend`
/// weekend commits. The rules are tried in order and the first that applies
/// decides; the ratios are taken over `day + night`, the number of commits.
pub open spec fn label_for(day: nat, night: nat, weekend: nat) -> PatternType {
    let total = day + night;
    if total < 5 {
        PatternType::Unknown
    } else if 10 * day >= 7 * total && 10 * weekend < 3 * total {
        PatternType::DayWorker
    } else if 10 * night >= 6 * total || 10 * weekend >= 4 * total {
        PatternType::Moonlighter
    } else {
        PatternType::Mixed
    }
}

/// The numerator of the confidence that goes with `label_for`.
pub open spec fn confidence_numerator(day: nat, night: nat, weekend: nat) -> nat {
    let total = day + night;
    match label_for(day, night, weekend) {
        PatternType::Unknown => 0,
        PatternType::DayWorker => day,
        PatternType::Moonlighter => if 2 * night + weekend <= 2 * total {
            2 * night + weekend
        } else {
            2 * total
        },
        PatternType::Mixed => if day >= night {
            (total - (day - night)) as nat
        } else {
            (total - (night - day)) as nat
        },
    }
}

/// The denominator of the confidence that goes with `label_for`.
pub open spec fn confidence_denominator(day: nat, night: nat, weekend: nat) -> nat {
    let total = day + night;
    match label_for(day, night, weekend) {
        PatternType::Unknown => 1,
        PatternType::DayWorker => total,
        PatternType::Moonlighter => 2 * total,
        PatternType::Mixed => total,
    }
}

/// The work pattern that the three counts give.
pub open spec fn pattern_for(day: nat, night: nat, weekend: nat) -> WorkPattern {
    WorkPattern {
        pattern_type: label_for(day, night, weekend),
        day_commits: day as u32,
        night_commits: night as u32,
        weekend_commits: weekend as u32,
        confidence: Confidence {
            numerator: confidence_numerator(day, night, weekend) as u64,
            denominator: confidence_denominator(day, night, weekend) as u64,
        },
    }
}

/// The work pattern of a contributor whose commits were made at `times`.
pub open spec fn work_pattern_of(times: Seq<int>) -> WorkPattern {
    pattern_for(
        count_where(times, by_day()),
        count_where(times, by_night()),
        count_where(times, on_weekend()),
    )
}

/// Every commit is a day commit or a night commit and never both, and no more
/// commits fall on weekends than there are.
pub proof fn lemma_day_or_night(times: Seq<int>)
    ensures
        count_where(times, by_day()) + count_where(times, by_night()) == times.len(),
        count_where(times, on_weekend()) <= times.len(),
    decreases times.len(),
{
    if times.len() == 0 {
        times.lemma_filter_len(by_day());
        times.lemma_filter_len(by_night());
        times.lemma_filter_len(on_weekend());
    } else {
        let front = times.drop_last();
        assert(times =~= front.push(times.last()));
        lemma_day_or_night(front);
        front.lemma_filter_len_push(by_day(), times.last());
        front.lemma_filter_len_push(by_night(), times.last());
        front.lemma_filter_len_push(on_weekend(), times.last());
    }
}

/// Fewer than five commits are always labelled unknown, with confidence 0,
/// whenever they were made.
pub proof fn lemma_small_sample_unknown(times: Seq<int>)
    requires
        times.len() < 5,
    ensures
        work_pattern_of(times).pattern_type == PatternType::Unknown,
        work_pattern_of(times).confidence.numerator == 0,
{
    lemma_day_or_night(times);
}

/// The confidence of a work pattern is a ratio between 0 and 1, as long as the
/// commits can be counted.
pub proof fn lemma_confidence_in_range(times: Seq<int>)
    requires
        times.len() <= u32::MAX,
    ensures
        0 < work_pattern_of(times).confidence.denominator,
        work_pattern_of(times).confidence.numerator <= work_pattern_of(
            times,
        ).confidence.denominator,
{
    lemma_day_or_night(times);
}

impl PatternType {
    /// The label in words, as reports spell it.
    pub fn as_str(&self) -> (label: &'static str)
        ensures
            label@ == match *self {
                PatternType::DayWorker => "day_worker"@,
                PatternType::Moonlighter => "moonlighter"@,
                PatternType::Mixed => "mixed"@,
                PatternType::Unknown => "unknown"@,
            },
    {
        match self {
            PatternType::DayWorker => "day_worker",
            PatternType::Moonlighter => "moonlighter",
            PatternType::Mixed => "mixed",
            PatternType::Unknown => "unknown",
        }
    }
}

impl WorkPattern {
    /// The pattern of a contributor of whom nothing is known yet.
    pub fn unknown() -> (pattern: WorkPattern)
        ensures
            pattern == pattern_for(0, 0, 0),
    {
        WorkPattern {
            pattern_type: PatternType::Unknown,
            day_commits: 0,
            night_commits: 0,
            weekend_commits: 0,
            confidence: Confidence { numerator: 0, denominator: 1 },
        }
    }

    /// Labels a contributor with `day` day commits, `night` night commits and
    /// `weekend` weekend commits.
    pub fn from_counts(day: u32, night: u32, weekend: u32) -> (pattern: WorkPattern)
        requires
            day + night <= u32::MAX,
            weekend <= day + night,
        ensures
            pattern == pattern_for(day as nat, night as nat, weekend as nat),
            day + night < 5 ==> pattern.pattern_type == PatternType::Unknown
                && pattern.confidence.numerator == 0,
            0 < pattern.confidence.denominator,
            pattern.confidence.numerator <= pattern.confidence.denominator,
    {
        let total: u64 = day as u64 + night as u64;
        let day_wide: u64 = day as u64;
        let night_wide: u64 = night as u64;
        let weekend_wide: u64 = weekend as u64;
        let (pattern_type, numerator, denominator) = if total < MIN_SAMPLE as u64 {
            (PatternType::Unknown, 0u64, 1u64)
        } else if 10 * day_wide >= 7 * total && 10 * weekend_wide < 3 * total {
            (PatternType::DayWorker, day_wide, total)
        } else if 10 * night_wide >= 6 * total || 10 * weekend_wide >= 4 * total {
            let raw: u64 = 2 * night_wide + weekend_wide;
            let capped: u64 = if raw <= 2 * total {
                raw
            } else {
                2 * total
            };
            (PatternType::Moonlighter, capped, 2 * total)
        } else {
            let gap: u64 = if day_wide >= night_wide {
                day_wide - night_wide
            } else {
                night_wide - day_wide
            };
            (PatternType::Mixed, total - gap, total)
        };
        WorkPattern {
            pattern_type,
            day_commits: day,
            night_commits: night,
            weekend_commits: weekend,
            confidence: Confidence { numerator, denominator },
        }
    }
}

/// Classifies a contributor from the instants of their commits.
///
/// Each commit counts as a day or a night commit by its hour, and, whatever
/// its hour, as a weekend commit when it falls on a Saturday or Sunday.
pub fn calculate_work_pattern(commit_times: &[Instant]) -> (pattern: WorkPattern)
    requires
        commit_times.len() <= u32::MAX,
    ensures
        pattern == work_pattern_of(times_of(commit_times@)),
        pattern.day_commits + pattern.night_commits == commit_times.len(),
        pattern.weekend_commits <= commit_times.len(),
        commit_times.len() < 5 ==> pattern.pattern_type == PatternType::Unknown
            && pattern.confidence.numerator == 0,
        0 < pattern.confidence.denominator,
        pattern.confidence.numerator <= pattern.confidence.denominator,
{
    let ghost times = times_of(commit_times@);
    let mut day: u32 = 0;
    let mut night: u32 = 0;
    let mut weekend: u32 = 0;
    let mut i: usize = 0;
    proof {
        assert(times.take(0) =~= Seq::<int>::empty());
        reveal_with_fuel(Seq::filter, 1);
    }
    while i < commit_times.len()
        invariant
            i <= commit_times.len(),
            commit_times.len() <= u32::MAX,
            times == times_of(commit_times@),
            day == count_where(times.take(i as int), by_day()),
            night == count_where(times.take(i as int), by_night()),
            weekend == count_where(times.take(i as int), on_weekend()),
            day + night == i,
            weekend <= i,
        decreases commit_times.len() - i,
    {
        let time = &commit_times[i];
        let hour = time.hour();
        proof {
            let seen = times.take(i as int);
            assert(times.take(i + 1) =~= seen.push(times[i as int]));
            seen.lemma_filter_len_push(by_day(), times[i as int]);
            seen.lemma_filter_len_push(by_night(), times[i as int]);
            seen.lemma_filter_len_push(on_weekend(), times[i as int]);
        }
        if time.is_weekend() {
            weekend = weekend + 1;
        }
        if hour >= 9 && hour < 18 {
            day = day + 1;
        } else {
            night = night + 1;
        }
        i = i + 1;
    }
    proof {
        assert(times.take(i as int) =~= times);
    }
    WorkPattern::from_counts(day, night, weekend)
}

} // verus!
