//! Commits counted by hour of the day.

use crate::instant::{hour_of, Instant};
use crate::pattern::{count_where, times_of};
use std::collections::HashMap;
use vstd::prelude::*;

verus! {

/// The predicate "falls in hour `hour` of its day".
pub open spec fn at_hour(hour: int) -> spec_fn(int) -> bool {
    |secs: int| hour_of(secs) == hour
}

/// How many of `times` fall in hour `hour` of their day.
pub open spec fn commits_at_hour(times: Seq<int>, hour: int) -> nat {
    count_where(times, at_hour(hour))
}

/// The histogram of `times` by hour: every hour in which at least one of them
/// falls, with the number that fall in it. Hours without any are absent.
pub open spec fn hourly_distribution(times: Seq<int>) -> Map<u8, u32> {
    Map::new(
        |hour: u8| commits_at_hour(times, hour as int) > 0,
        |hour: u8| commits_at_hour(times, hour as int) as u32,
    )
}

/// One more of `times` changes the count of its own hour only.
pub proof fn lemma_commits_at_hour_push(times: Seq<int>, secs: int, hour: int)
    ensures
        commits_at_hour(times.push(secs), hour) == commits_at_hour(times, hour) + (if hour_of(secs)
            == hour {
            1int
        } else {
            0int
        }),
        commits_at_hour(times, hour) <= times.len(),
{
    times.lemma_filter_len_push(at_hour(hour), secs);
    times.lemma_filter_len(at_hour(hour));
}

/// Every counted hour is an hour of the day.
pub proof fn lemma_hours_in_range(times: Seq<int>, hour: int)
    requires
        commits_at_hour(times, hour) > 0,
    ensures
        0 <= hour < 24,
{
    let hits = times.filter(at_hour(hour));
    times.lemma_filter_pred(at_hour(hour), 0);
    assert(at_hour(hour)(hits[0]));
}

/// Counts one more commit in hour `hour`.
pub fn record_hour(hourly: &mut HashMap<u8, u32>, hour: u8)
    requires
        old(hourly)@.contains_key(hour) ==> old(hourly)@[hour] < u32::MAX,
    ensures
        final(hourly)@ == old(hourly)@.insert(
            hour,
            if old(hourly)@.contains_key(hour) {
                (old(hourly)@[hour] + 1) as u32
            } else {
                1u32
            },
        ),
{
    broadcast use vstd::std_specs::hash::group_hash_axioms;

    let count: u32 = match hourly.get(&hour) {
        Some(seen) => *seen + 1,
        None => 1,
    };
    hourly.insert(hour, count);
}

/// Counts the commits made at `commit_times` by hour of the day.
pub fn calculate_hourly_distribution(commit_times: &[Instant]) -> (hourly: HashMap<u8, u32>)
    requires
        commit_times.len() <= u32::MAX,
    ensures
        hourly@ == hourly_distribution(times_of(commit_times@)),
        forall|hour: u8| hourly@.contains_key(hour) ==> hour < 24 && hourly@[hour] > 0,
{
    let ghost times = times_of(commit_times@);
    let mut hourly: HashMap<u8, u32> = HashMap::new();
    let mut i: usize = 0;
    proof {
        assert(times.take(0) =~= Seq::<int>::empty());
        reveal_with_fuel(Seq::filter, 1);
        assert(hourly@ =~= hourly_distribution(times.take(0)));
    }
    while i < commit_times.len()
        invariant
            i <= commit_times.len(),
            commit_times.len() <= u32::MAX,
            times == times_of(commit_times@),
            hourly@ == hourly_distribution(times.take(i as int)),
        decreases commit_times.len() - i,
    {
        let hour = commit_times[i].hour() as u8;
        proof {
            let seen = times.take(i as int);
            assert(times.take(i + 1) =~= seen.push(times[i as int]));
            assert forall|h: u8|
                commits_at_hour(times.take(i + 1), h as int) == commits_at_hour(seen, h as int) + (
                if h == hour {
                    1int
                } else {
                    0int
                }) && commits_at_hour(seen, h as int) <= i by {
                lemma_commits_at_hour_push(seen, times[i as int], h as int);
            }
        }
        record_hour(&mut hourly, hour);
        proof {
            assert(hourly@ =~= hourly_distribution(times.take(i + 1)));
        }
        i = i + 1;
    }
    proof {
        assert(times.take(i as int) =~= times);
        assert forall|hour: u8| hourly@.contains_key(hour) implies hour < 24 && hourly@[hour]
            > 0 by {
            lemma_hours_in_range(times, hour as int);
            times.lemma_filter_len(at_hour(hour as int));
        }
    }
    hourly
}

} // verus!
