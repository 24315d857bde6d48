//! Commits of all contributors together, counted by month and by hour.

use crate::commit::CommitRecord;
use crate::contributors::commit_times;
use crate::histogram::{
    at_hour, commits_at_hour, hourly_distribution, lemma_commits_at_hour_push, record_hour,
};
use crate::instant::month_key_of;
use crate::pattern::count_where;
use crate::permutation::{lemma_filter_rearranged, lemma_map_rearranged};
use std::collections::HashMap;
use vstd::prelude::*;

verus! {

/// The number of commits made in one month.
#[derive(Debug)]
pub struct MonthCount {
    /// The month, as in `2024-03`.
    pub month: String,
    pub commits: u32,
}

/// The commits of a history by month and by hour of the day.
#[derive(Debug)]
pub struct Activity {
    /// One entry for each month with a commit, in no particular order.
    pub monthly_commits: Vec<MonthCount>,
    /// The hours with a commit, each with the number of its commits.
    pub hourly_commits: HashMap<u8, u32>,
}

/// The predicate "falls in the month written `key`".
pub open spec fn in_month(key: Seq<char>) -> spec_fn(int) -> bool {
    |secs: int| month_key_of(secs) == key
}

/// How many of `times` fall in the month written `key`.
pub open spec fn commits_in_month(times: Seq<int>, key: Seq<char>) -> nat {
    count_where(times, in_month(key))
}

/// Whether one of `entries` counts the month written `key`.
pub open spec fn has_month(entries: Seq<MonthCount>, key: Seq<char>) -> bool {
    exists|i: int| 0 <= i < entries.len() && (#[trigger] entries[i]).month@ == key
}

/// Whether no two of `entries` count the same month.
pub open spec fn distinct_months(entries: Seq<MonthCount>) -> bool {
    forall|i: int, j: int|
        0 <= i < j < entries.len() ==> (#[trigger] entries[i]).month@ != (#[trigger] entries[j]).month@
}

/// Whether `entries` are the count of `times` by month: each month in which
/// one of `times` falls has exactly one entry, and each entry holds the number
/// of `times` that fall in its month, which is at least one.
pub open spec fn monthly_matches(entries: Seq<MonthCount>, times: Seq<int>) -> bool {
    &&& distinct_months(entries)
    &&& forall|i: int|
        0 <= i < entries.len() ==> (#[trigger] entries[i]).commits > 0 && entries[i].commits
            == commits_in_month(times, entries[i].month@)
    &&& forall|k: int| 0 <= k < times.len() ==> has_month(entries, month_key_of(#[trigger] times[k]))
}

/// One more instant changes the count of its own month only.
pub proof fn lemma_commits_in_month_push(times: Seq<int>, secs: int, key: Seq<char>)
    ensures
        commits_in_month(times.push(secs), key) == commits_in_month(times, key) + (
        if month_key_of(secs) == key {
            1int
        } else {
            0int
        }),
        commits_in_month(times, key) <= times.len(),
{
    times.lemma_filter_len_push(in_month(key), secs);
    times.lemma_filter_len(in_month(key));
}

/// A month without an entry holds none of the instants that the entries count.
proof fn lemma_uncounted_month(entries: Seq<MonthCount>, times: Seq<int>, key: Seq<char>)
    requires
        forall|k: int| 0 <= k < times.len() ==> has_month(entries, month_key_of(#[trigger] times[k])),
        !has_month(entries, key),
    ensures
        commits_in_month(times, key) == 0,
{
    let own = times.filter(in_month(key));
    if own.len() > 0 {
        times.lemma_filter_pred(in_month(key), 0);
        assert(own.contains(own[0]));
        times.lemma_filter_contains_rev(in_month(key), own[0]);
        let k = choose|k: int| 0 <= k < times.len() && times[k] == own[0];
        assert(has_month(entries, month_key_of(times[k])));
    }
}

/// The position of the entry of the month written `key`, if there is one.
fn find_month(entries: &Vec<MonthCount>, key: &String) -> (found: Option<usize>)
    ensures
        match found {
            Some(i) => i < entries.len() && entries[i as int].month@ == key@,
            None => !has_month(entries@, key@),
        },
{
    let mut i: usize = 0;
    while i < entries.len()
        invariant
            i <= entries.len(),
            forall|j: int| 0 <= j < i ==> entries[j].month@ != key@,
        decreases entries.len() - i,
    {
        if entries[i].month == *key {
            return Some(i);
        }
        i = i + 1;
    }
    None
}

/// Whether `after` is `before` with one more commit counted in the month
/// written `key`: the entry of that month, if `before` has one, holds one
/// more; if it has none, a new entry with one commit stands at the end; all
/// else is as it was.
pub open spec fn month_counted(before: Seq<MonthCount>, after: Seq<MonthCount>, key: Seq<char>) -> bool {
    &&& after.len() == before.len() + (if has_month(before, key) {
        0int
    } else {
        1int
    })
    &&& forall|i: int|
        0 <= i < before.len() ==> (#[trigger] after[i]).month == before[i].month && after[i].commits
            == before[i].commits + (if before[i].month@ == key {
            1int
        } else {
            0int
        })
    &&& !has_month(before, key) ==> after[before.len() as int].month@ == key
        && after[before.len() as int].commits == 1
}

/// Counts one more commit in the month written `key`.
pub fn count_month(entries: &mut Vec<MonthCount>, key: String)
    requires
        distinct_months(old(entries)@),
        forall|i: int|
            0 <= i < old(entries).len() && (#[trigger] old(entries)[i]).month@ == key@ ==> old(
                entries,
            )[i].commits < u32::MAX,
    ensures
        distinct_months(final(entries)@),
        month_counted(old(entries)@, final(entries)@, key@),
{
    let ghost before = entries@;
    match find_month(entries, &key) {
        Some(i) => {
            let entry = &mut entries[i];
            entry.commits = entry.commits + 1;
            proof {
                assert forall|j: int| 0 <= j < before.len() implies (#[trigger] entries[j]).month
                    == before[j].month && entries[j].commits == before[j].commits + (
                if before[j].month@ == key@ {
                    1int
                } else {
                    0int
                }) by {
                    if j != i {
                        assert(entries[j] == before[j]);
                        if j < i {
                            assert(before[j].month@ != before[i as int].month@);
                        } else {
                            assert(before[i as int].month@ != before[j].month@);
                        }
                    }
                }
                assert(has_month(before, key@)) by {
                    assert(before[i as int].month@ == key@);
                }
                assert(distinct_months(entries@)) by {
                    assert forall|a: int, b: int| 0 <= a < b < entries.len() implies (
                    #[trigger] entries[a]).month@ != (#[trigger] entries[b]).month@ by {
                        assert(before[a].month@ != before[b].month@);
                    }
                }
            }
        },
        None => {
            entries.push(MonthCount { month: key, commits: 1 });
            proof {
                assert forall|j: int| 0 <= j < before.len() implies (#[trigger] entries[j]).month
                    == before[j].month && entries[j].commits == before[j].commits + (
                if before[j].month@ == key@ {
                    1int
                } else {
                    0int
                }) by {
                    assert(entries[j] == before[j]);
                    assert(has_month(before, before[j].month@));
                }
                assert(distinct_months(entries@)) by {
                    assert forall|a: int, b: int| 0 <= a < b < entries.len() implies (
                    #[trigger] entries[a]).month@ != (#[trigger] entries[b]).month@ by {
                        assert(entries[a] == before[a]);
                        assert(has_month(before, before[a].month@));
                        if b < before.len() {
                            assert(entries[b] == before[b]);
                        }
                    }
                }
            }
        },
    }
}

/// Entries that count `seen` by month count `seen` and one more instant once
/// that instant's month has been counted.
pub proof fn lemma_month_counted(
    before: Seq<MonthCount>,
    after: Seq<MonthCount>,
    seen: Seq<int>,
    secs: int,
)
    requires
        monthly_matches(before, seen),
        distinct_months(after),
        month_counted(before, after, month_key_of(secs)),
    ensures
        monthly_matches(after, seen.push(secs)),
{
    let key = month_key_of(secs);
    let more = seen.push(secs);
    assert forall|i: int| 0 <= i < after.len() implies (#[trigger] after[i]).commits > 0
        && after[i].commits == commits_in_month(more, after[i].month@) by {
        if i < before.len() {
            assert(after[i].month == before[i].month);
            lemma_commits_in_month_push(seen, secs, before[i].month@);
        } else {
            lemma_uncounted_month(before, seen, key);
            lemma_commits_in_month_push(seen, secs, key);
        }
    }
    assert forall|k: int| 0 <= k < more.len() implies has_month(
        after,
        month_key_of(#[trigger] more[k]),
    ) by {
        if k < seen.len() {
            assert(more[k] == seen[k]);
            assert(has_month(before, month_key_of(seen[k])));
            let w = choose|w: int|
                0 <= w < before.len() && (#[trigger] before[w]).month@ == month_key_of(seen[k]);
            assert(after[w].month@ == before[w].month@);
        } else if has_month(before, key) {
            let w = choose|w: int| 0 <= w < before.len() && (#[trigger] before[w]).month@ == key;
            assert(after[w].month@ == before[w].month@);
        } else {
            assert(after[before.len() as int].month@ == key);
        }
    }
}

/// Counts the commits of a history by month and by hour of the day, all
/// contributors together.
pub fn collect_activity_data(commits: &[CommitRecord]) -> (activity: Activity)
    requires
        commits.len() <= u32::MAX,
    ensures
        monthly_matches(activity.monthly_commits@, commit_times(commits@)),
        activity.hourly_commits@ == hourly_distribution(commit_times(commits@)),
{
    let ghost times = commit_times(commits@);
    let mut monthly: Vec<MonthCount> = Vec::new();
    let mut hourly: HashMap<u8, u32> = HashMap::new();
    let mut k: usize = 0;
    proof {
        assert(times.take(0) =~= Seq::<int>::empty());
        reveal_with_fuel(Seq::filter, 1);
        assert(hourly@ =~= hourly_distribution(times.take(0)));
    }
    while k < commits.len()
        invariant
            k <= commits.len(),
            commits.len() <= u32::MAX,
            times == commit_times(commits@),
            monthly_matches(monthly@, times.take(k as int)),
            hourly@ == hourly_distribution(times.take(k as int)),
        decreases commits.len() - k,
    {
        let time = commits[k].timestamp;
        let ghost seen = times.take(k as int);
        proof {
            assert(times.take(k + 1) =~= seen.push(time@));
        }
        let ghost counted = monthly@;
        proof {
            assert forall|i: int| 0 <= i < monthly.len() implies (#[trigger] monthly[i]).commits
                <= k by {
                lemma_commits_in_month_push(seen, time@, monthly[i].month@);
            }
        }
        count_month(&mut monthly, time.month_key());
        proof {
            lemma_month_counted(counted, monthly@, seen, time@);
        }
        let hour = time.hour() as u8;
        proof {
            assert forall|h: u8|
                commits_at_hour(seen.push(time@), h as int)
                    == commits_at_hour(seen, h as int) + (if h == hour {
                    1int
                } else {
                    0int
                }) && commits_at_hour(seen, h as int) <= k by {
                lemma_commits_at_hour_push(seen, time@, h as int);
            }
        }
        record_hour(&mut hourly, hour);
        proof {
            assert(hourly@ =~= hourly_distribution(seen.push(time@)));
        }
        k = k + 1;
    }
    proof {
        assert(times.take(k as int) =~= times);
    }
    Activity { monthly_commits: monthly, hourly_commits: hourly }
}

/// The order in which the commits are visited does not matter to the
/// activity: two walks over the same commits count the same number in every
/// month and in every hour.
pub proof fn lemma_activity_order_irrelevant(
    first: Seq<CommitRecord>,
    second: Seq<CommitRecord>,
    month: Seq<char>,
)
    requires
        first.to_multiset() == second.to_multiset(),
    ensures
        commits_in_month(commit_times(first), month) == commits_in_month(
            commit_times(second),
            month,
        ),
        hourly_distribution(commit_times(first)) == hourly_distribution(commit_times(second)),
{
    let one = commit_times(first);
    let other = commit_times(second);
    lemma_map_rearranged(first, second, |commit: CommitRecord| commit.timestamp@);
    lemma_filter_rearranged(one, other, in_month(month));
    assert forall|hour: u8|
        one.filter(at_hour(hour as int)).len() == other.filter(at_hour(hour as int)).len() by {
        lemma_filter_rearranged(one, other, at_hour(hour as int));
    }
    assert(hourly_distribution(one) =~= hourly_distribution(other));
}

} // verus!
