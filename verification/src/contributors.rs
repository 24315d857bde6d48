//! Per-contributor statistics, folded from the commits of a history.

use crate::commit::{key_text, CommitRecord};
use crate::histogram::{at_hour, calculate_hourly_distribution, hourly_distribution};
use crate::instant::Instant;
use crate::pattern::{
    by_day, by_night, calculate_work_pattern, on_weekend, times_of, work_pattern_of, WorkPattern,
};
use crate::permutation::{lemma_extremes_rearranged, lemma_filter_rearranged, lemma_map_rearranged};
use crate::ranking::{descending, lemma_rearranged, sort_descending, Ranked};
use std::collections::HashMap;
use vstd::prelude::*;

verus! {

/// What the history tells of one contributor.
#[derive(Debug)]
pub struct ContributorRecord {
    pub name: String,
    pub email: String,
    pub commit_count: u32,
    pub first_commit: Instant,
    pub last_commit: Instant,
    /// The instants of the contributor's commits, in the order of the walk.
    pub timestamps: Vec<Instant>,
    pub hourly_histogram: HashMap<u8, u32>,
    pub work_pattern: WorkPattern,
}

impl ContributorRecord {
    /// The text under which the contributor's commits were gathered.
    pub open spec fn key(&self) -> Seq<char> {
        key_text(self.name@, self.email@)
    }
}

impl Ranked for ContributorRecord {
    open spec fn rank(&self) -> nat {
        self.commit_count as nat
    }

    fn rank_value(&self) -> (value: u32) {
        self.commit_count
    }
}

/// The predicate "was written by the author with key `key`".
pub open spec fn with_key(key: Seq<char>) -> spec_fn(CommitRecord) -> bool {
    |commit: CommitRecord| commit.author_key() == key
}

/// The commits of the author with key `key`, in the order of the walk.
pub open spec fn commits_of(commits: Seq<CommitRecord>, key: Seq<char>) -> Seq<CommitRecord> {
    commits.filter(with_key(key))
}

/// The instants of `commits`, in seconds from the epoch.
pub open spec fn commit_times(commits: Seq<CommitRecord>) -> Seq<int> {
    commits.map_values(|commit: CommitRecord| commit.timestamp@)
}

/// The instants at which the author with key `key` committed.
pub open spec fn times_of_key(commits: Seq<CommitRecord>, key: Seq<char>) -> Seq<int> {
    commit_times(commits_of(commits, key))
}

/// Whether `record` holds the counts and instants of its contributor's
/// commits among `commits`; the histogram and the work pattern are left open.
pub open spec fn tallied(record: ContributorRecord, commits: Seq<CommitRecord>) -> bool {
    let own = commits_of(commits, record.key());
    let times = commit_times(own);
    &&& own.len() > 0
    &&& record.name@ == own[0].author_name@
    &&& record.email@ == own[0].author_email@
    &&& record.commit_count == own.len()
    &&& record.first_commit@ == times.min()
    &&& record.last_commit@ == times.max()
    &&& times_of(record.timestamps@) == times
}

/// Whether `record` is the full account of its contributor among `commits`:
/// name and address as on the contributor's first commit of the walk, the
/// number of commits, the earliest and the latest of them, their instants in
/// walk order, their histogram by hour and the work pattern they give.
pub open spec fn describes(record: ContributorRecord, commits: Seq<CommitRecord>) -> bool {
    let times = times_of_key(commits, record.key());
    &&& tallied(record, commits)
    &&& record.hourly_histogram@ == hourly_distribution(times)
    &&& record.work_pattern == work_pattern_of(times)
}

/// Whether one of `records` was gathered under `key`.
pub open spec fn has_key(records: Seq<ContributorRecord>, key: Seq<char>) -> bool {
    exists|i: int| 0 <= i < records.len() && #[trigger] records[i].key() == key
}

/// Whether no two of `records` were gathered under the same key.
pub open spec fn distinct_keys(records: Seq<ContributorRecord>) -> bool {
    forall|i: int, j: int|
        0 <= i < j < records.len() ==> #[trigger] records[i].key() != #[trigger] records[j].key()
}

/// The least and the greatest of a list of instants after one more is added.
pub proof fn lemma_min_max_push(times: Seq<int>, secs: int)
    ensures
        times.push(secs).min() == (if times.len() == 0 || secs < times.min() {
            secs
        } else {
            times.min()
        }),
        times.push(secs).max() == (if times.len() == 0 || secs > times.max() {
            secs
        } else {
            times.max()
        }),
{
    let more = times.push(secs);
    times.min_ensures();
    times.max_ensures();
    more.min_ensures();
    more.max_ensures();
    assert(more[times.len() as int] == secs);
    assert forall|i: int| 0 <= i < times.len() implies more[i] == times[i] by {}
    if times.len() > 0 {
        let low = times.min();
        let high = times.max();
        let i = choose|i: int| 0 <= i < times.len() && times[i] == low;
        let j = choose|j: int| 0 <= j < times.len() && times[j] == high;
        assert(more[i] == low);
        assert(more[j] == high);
    }
    let i = choose|i: int| 0 <= i < more.len() && more[i] == more.min();
    let j = choose|j: int| 0 <= j < more.len() && more[j] == more.max();
    assert(i == times.len() || more[i] == times[i]);
    assert(j == times.len() || more[j] == times[j]);
}

/// One more commit adds its instant to the list of its own author and leaves
/// the lists of all others as they were.
pub proof fn lemma_commits_of_push(commits: Seq<CommitRecord>, commit: CommitRecord, key: Seq<char>)
    ensures
        commits_of(commits.push(commit), key) == (if commit.author_key() == key {
            commits_of(commits, key).push(commit)
        } else {
            commits_of(commits, key)
        }),
        times_of_key(commits.push(commit), key) == (if commit.author_key() == key {
            times_of_key(commits, key).push(commit.timestamp@)
        } else {
            times_of_key(commits, key)
        }),
{
    commits.lemma_filter_push(commit, with_key(key));
    if commit.author_key() == key {
        assert(commit_times(commits_of(commits, key).push(commit)) =~= commit_times(
            commits_of(commits, key),
        ).push(commit.timestamp@));
    }
}

/// An author under whose key no record was gathered has no commit among those
/// that the records cover.
proof fn lemma_unseen_key(
    records: Seq<ContributorRecord>,
    commits: Seq<CommitRecord>,
    key: Seq<char>,
)
    requires
        forall|k: int| 0 <= k < commits.len() ==> has_key(records, #[trigger] commits[k].author_key()),
        !has_key(records, key),
    ensures
        commits_of(commits, key).len() == 0,
{
    let own = commits_of(commits, key);
    if own.len() > 0 {
        commits.lemma_filter_pred(with_key(key), 0);
        assert(own.contains(own[0]));
        commits.lemma_filter_contains_rev(with_key(key), own[0]);
        let k = choose|k: int| 0 <= k < commits.len() && commits[k] == own[0];
        assert(has_key(records, commits[k].author_key()));
    }
}

/// The position of the record gathered under `key`, if there is one.
fn find_key(keys: &Vec<String>, key: &String) -> (found: Option<usize>)
    ensures
        match found {
            Some(i) => i < keys.len() && keys[i as int]@ == key@,
            None => forall|i: int| 0 <= i < keys.len() ==> keys[i]@ != key@,
        },
{
    let mut i: usize = 0;
    while i < keys.len()
        invariant
            i <= keys.len(),
            forall|j: int| 0 <= j < i ==> keys[j]@ != key@,
        decreases keys.len() - i,
    {
        if keys[i] == *key {
            return Some(i);
        }
        i = i + 1;
    }
    None
}

/// Counts one more commit, made at `time`, for the contributor of `record`.
fn note_commit(record: &mut ContributorRecord, time: Instant)
    requires
        old(record).commit_count < u32::MAX,
    ensures
        final(record).name == old(record).name,
        final(record).email == old(record).email,
        final(record).commit_count == old(record).commit_count + 1,
        final(record).first_commit@ == (if time@ < old(record).first_commit@ {
            time@
        } else {
            old(record).first_commit@
        }),
        final(record).last_commit@ == (if time@ > old(record).last_commit@ {
            time@
        } else {
            old(record).last_commit@
        }),
        final(record).timestamps@ == old(record).timestamps@.push(time),
        final(record).hourly_histogram == old(record).hourly_histogram,
        final(record).work_pattern == old(record).work_pattern,
{
    record.commit_count = record.commit_count + 1;
    if time.is_before(&record.first_commit) {
        record.first_commit = time;
    }
    if record.last_commit.is_before(&time) {
        record.last_commit = time;
    }
    record.timestamps.push(time);
}

/// The record of a contributor seen for the first time, on `commit`.
fn first_sight(commit: &CommitRecord) -> (record: ContributorRecord)
    ensures
        record.name@ == commit.author_name@,
        record.email@ == commit.author_email@,
        record.commit_count == 1,
        record.first_commit@ == commit.timestamp@,
        record.last_commit@ == commit.timestamp@,
        record.timestamps@ == seq![commit.timestamp],
{
    let mut timestamps: Vec<Instant> = Vec::new();
    timestamps.push(commit.timestamp);
    ContributorRecord {
        name: commit.author_name.clone(),
        email: commit.author_email.clone(),
        commit_count: 1,
        first_commit: commit.timestamp,
        last_commit: commit.timestamp,
        timestamps,
        hourly_histogram: HashMap::new(),
        work_pattern: WorkPattern::unknown(),
    }
}

/// Gathers the commits by author: one record for each key, with the counts
/// and instants filled in.
fn tally_commits(commits: &[CommitRecord]) -> (records: Vec<ContributorRecord>)
    requires
        commits.len() <= u32::MAX,
    ensures
        distinct_keys(records@),
        forall|i: int| 0 <= i < records.len() ==> tallied(#[trigger] records[i], commits@),
        forall|k: int|
            0 <= k < commits.len() ==> has_key(records@, #[trigger] commits[k].author_key()),
{
    let mut records: Vec<ContributorRecord> = Vec::new();
    let mut keys: Vec<String> = Vec::new();
    let mut k: usize = 0;
    while k < commits.len()
        invariant
            k <= commits.len(),
            commits.len() <= u32::MAX,
            keys.len() == records.len(),
            forall|i: int| 0 <= i < records.len() ==> keys[i]@ == #[trigger] records[i].key(),
            distinct_keys(records@),
            forall|i: int|
                0 <= i < records.len() ==> tallied(#[trigger] records[i], commits@.take(k as int)),
            forall|j: int|
                0 <= j < k ==> has_key(records@, #[trigger] commits[j].author_key()),
        decreases commits.len() - k,
    {
        let commit = &commits[k];
        let key = commit.identity();
        let ghost seen = commits@.take(k as int);
        let ghost before = records@;
        proof {
            assert(commits@.take(k + 1) =~= seen.push(*commit));
            assert forall|i: int| 0 <= i < before.len() implies commits_of(seen, before[i].key()).len()
                <= k by {
                seen.lemma_filter_len(with_key(before[i].key()));
            }
        }
        match find_key(&keys, &key) {
            Some(i) => {
                note_commit(&mut records[i], commit.timestamp);
                proof {
                    let old_record = before[i as int];
                    let new_record = records@[i as int];
                    assert(new_record.key() == old_record.key());
                    lemma_commits_of_push(seen, *commit, old_record.key());
                    lemma_min_max_push(times_of_key(seen, old_record.key()), commit.timestamp@);
                    assert(times_of(new_record.timestamps@) =~= times_of(
                        old_record.timestamps@,
                    ).push(commit.timestamp@));
                    assert(tallied(new_record, seen.push(*commit)));
                    assert forall|j: int| 0 <= j < records.len() implies tallied(
                        #[trigger] records[j],
                        seen.push(*commit),
                    ) by {
                        if j != i {
                            assert(records[j] == before[j]);
                            assert(before[j].key() != before[i as int].key());
                            lemma_commits_of_push(seen, *commit, before[j].key());
                        }
                    }
                    assert forall|j: int| 0 <= j < records.len() implies keys[j]@
                        == #[trigger] records[j].key() by {
                        assert(records[j].key() == before[j].key());
                    }
                    assert(distinct_keys(records@)) by {
                        assert forall|a: int, b: int| 0 <= a < b < records.len() implies records[a].key()
                            != records[b].key() by {
                            assert(records[a].key() == before[a].key());
                            assert(records[b].key() == before[b].key());
                        }
                    }
                    assert forall|j: int| 0 <= j < k + 1 implies has_key(
                        records@,
                        #[trigger] commits[j].author_key(),
                    ) by {
                        if j < k {
                            assert(has_key(before, commits[j].author_key()));
                            let w = choose|w: int|
                                0 <= w < before.len() && #[trigger] before[w].key()
                                    == commits[j].author_key();
                            assert(records[w].key() == before[w].key());
                        } else {
                            assert(records[i as int].key() == commit.author_key());
                        }
                    }
                }
            },
            None => {
                let record = first_sight(commit);
                proof {
                    assert(!has_key(before, key@)) by {
                        if has_key(before, key@) {
                            let w = choose|w: int|
                                0 <= w < before.len() && #[trigger] before[w].key() == key@;
                            assert(keys[w]@ == before[w].key());
                        }
                    }
                    assert forall|j: int| 0 <= j < seen.len() implies has_key(
                        before,
                        #[trigger] seen[j].author_key(),
                    ) by {
                        assert(seen[j] == commits[j]);
                    }
                    lemma_unseen_key(before, seen, key@);
                    lemma_commits_of_push(seen, *commit, key@);
                    assert(commits_of(seen, key@) =~= Seq::<CommitRecord>::empty());
                    assert(times_of_key(seen, key@) =~= Seq::<int>::empty());
                    lemma_min_max_push(times_of_key(seen, key@), commit.timestamp@);
                    assert(times_of(record.timestamps@) =~= Seq::<int>::empty().push(
                        commit.timestamp@,
                    ));
                    assert(record.key() == key@);
                    assert(tallied(record, seen.push(*commit)));
                }
                records.push(record);
                keys.push(key);
                proof {
                    assert forall|j: int| 0 <= j < records.len() implies tallied(
                        #[trigger] records[j],
                        seen.push(*commit),
                    ) by {
                        if j < before.len() {
                            assert(records[j] == before[j]);
                            assert(keys[j]@ == before[j].key());
                            lemma_commits_of_push(seen, *commit, before[j].key());
                        }
                    }
                    assert forall|j: int| 0 <= j < k + 1 implies has_key(
                        records@,
                        #[trigger] commits[j].author_key(),
                    ) by {
                        if j < k {
                            assert(has_key(before, commits[j].author_key()));
                            let w = choose|w: int|
                                0 <= w < before.len() && #[trigger] before[w].key()
                                    == commits[j].author_key();
                            assert(records[w].key() == before[w].key());
                        } else {
                            assert(records[before.len() as int].key() == commit.author_key());
                        }
                    }
                    assert(distinct_keys(records@)) by {
                        assert forall|a: int, b: int| 0 <= a < b < records.len() implies records[a].key()
                            != records[b].key() by {
                            assert(records[a] == before[a]);
                            assert(keys[a]@ == before[a].key());
                            if b < before.len() {
                                assert(records[b] == before[b]);
                            }
                        }
                    }
                }
            },
        }
        k = k + 1;
    }
    proof {
        assert(commits@.take(k as int) =~= commits@);
    }
    records
}

/// Folds the commits of a history into one record for each contributor,
/// ordered by falling number of commits.
///
/// Commits are gathered under the text `name <address>` of their author, so
/// one person with two addresses gives two records.
pub fn collect_contributor_data(commits: &[CommitRecord]) -> (contributors: Vec<ContributorRecord>)
    requires
        commits.len() <= u32::MAX,
    ensures
        descending(contributors@),
        distinct_keys(contributors@),
        forall|i: int|
            0 <= i < contributors.len() ==> describes(#[trigger] contributors[i], commits@),
        forall|k: int|
            0 <= k < commits.len() ==> has_key(contributors@, #[trigger] commits[k].author_key()),
{
    let mut records = tally_commits(commits);
    let ghost tallies = records@;
    let mut i: usize = 0;
    while i < records.len()
        invariant
            i <= records.len(),
            records.len() == tallies.len(),
            forall|j: int| 0 <= j < records.len() ==> #[trigger] records[j].key() == tallies[j].key(),
            forall|j: int| 0 <= j < i ==> describes(#[trigger] records[j], commits@),
            forall|j: int| i <= j < records.len() ==> tallied(#[trigger] records[j], commits@),
            forall|j: int|
                0 <= j < records.len() ==> (#[trigger] records[j]).commit_count <= u32::MAX,
        decreases records.len() - i,
    {
        let ghost before = records@;
        let record = &mut records[i];
        proof {
            assert(tallied(*record, commits@));
            assert(times_of(record.timestamps@).len() == record.timestamps@.len());
        }
        let pattern = calculate_work_pattern(record.timestamps.as_slice());
        let histogram = calculate_hourly_distribution(record.timestamps.as_slice());
        record.work_pattern = pattern;
        record.hourly_histogram = histogram;
        proof {
            assert(describes(records[i as int], commits@));
            assert forall|j: int| 0 <= j < records.len() && j != i implies records[j]
                == before[j] by {}
        }
        i = i + 1;
    }
    let ghost finished = records@;
    let sorted = sort_descending(records);
    proof {
        lemma_rearranged(finished, sorted@);
        lemma_keys_carry_over(finished, sorted@);
        assert forall|j: int| 0 <= j < sorted.len() implies describes(
            #[trigger] sorted[j],
            commits@,
        ) by {
            assert(finished.contains(sorted[j]));
        }
        assert forall|k: int| 0 <= k < commits.len() implies has_key(
            sorted@,
            #[trigger] commits[k].author_key(),
        ) by {
            assert(has_key(tallies, commits[k].author_key()));
            let w = choose|w: int|
                0 <= w < tallies.len() && #[trigger] tallies[w].key() == commits[k].author_key();
            assert(finished[w].key() == tallies[w].key());
            assert(sorted@.contains(finished[w]));
        }
    }
    sorted
}

/// Records that are rearranged keep their keys apart.
pub proof fn lemma_keys_carry_over(records: Seq<ContributorRecord>, sorted: Seq<ContributorRecord>)
    requires
        sorted.to_multiset() == records.to_multiset(),
        distinct_keys(records),
    ensures
        distinct_keys(sorted),
{
    lemma_rearranged(records, sorted);
    assert(records.no_duplicates()) by {
        assert forall|i: int, j: int| 0 <= i < records.len() && 0 <= j < records.len() && i
            != j implies records[i] != records[j] by {
            if i < j {
                assert(records[i].key() != records[j].key());
            } else {
                assert(records[j].key() != records[i].key());
            }
        }
    }
    assert forall|a: int, b: int| 0 <= a < b < sorted.len() implies #[trigger] sorted[a].key()
        != #[trigger] sorted[b].key() by {
        assert(records.contains(sorted[a]));
        assert(records.contains(sorted[b]));
        let i = choose|i: int| 0 <= i < records.len() && records[i] == sorted[a];
        let j = choose|j: int| 0 <= j < records.len() && records[j] == sorted[b];
        assert(sorted[a] != sorted[b]);
        if i < j {
            assert(records[i].key() != records[j].key());
        } else {
            assert(records[j].key() != records[i].key());
        }
    }
}

/// The order in which the commits are visited does not matter to what is
/// counted for a contributor: two walks over the same commits give the same
/// instants, each as often, and so the same number of commits, the same
/// earliest and latest commit, the same histogram by hour and the same work
/// pattern.
pub proof fn lemma_visit_order_irrelevant(
    first: Seq<CommitRecord>,
    second: Seq<CommitRecord>,
    key: Seq<char>,
)
    requires
        first.to_multiset() == second.to_multiset(),
    ensures
        times_of_key(first, key).to_multiset() == times_of_key(second, key).to_multiset(),
        commits_of(first, key).len() == commits_of(second, key).len(),
        times_of_key(first, key).min() == times_of_key(second, key).min(),
        times_of_key(first, key).max() == times_of_key(second, key).max(),
        hourly_distribution(times_of_key(first, key)) == hourly_distribution(
            times_of_key(second, key),
        ),
        work_pattern_of(times_of_key(first, key)) == work_pattern_of(times_of_key(second, key)),
{
    let one = times_of_key(first, key);
    let other = times_of_key(second, key);
    lemma_filter_rearranged(first, second, with_key(key));
    lemma_map_rearranged(
        commits_of(first, key),
        commits_of(second, key),
        |commit: CommitRecord| commit.timestamp@,
    );
    lemma_extremes_rearranged(one, other);
    lemma_filter_rearranged(one, other, by_day());
    lemma_filter_rearranged(one, other, by_night());
    lemma_filter_rearranged(one, other, on_weekend());
    assert forall|hour: u8|
        one.filter(at_hour(hour as int)).len() == other.filter(at_hour(hour as int)).len() by {
        lemma_filter_rearranged(one, other, at_hour(hour as int));
    }
    assert(hourly_distribution(one) =~= hourly_distribution(other));
}

/// Two walks over the same commits, in whatever order, give records that agree,
/// contributor by contributor, in the number of commits, the first and the
/// last commit, the histogram by hour and the work pattern; and a contributor
/// who has a record after one walk has one after the other.
pub proof fn lemma_records_agree(
    first: Seq<CommitRecord>,
    second: Seq<CommitRecord>,
    one: ContributorRecord,
    other: ContributorRecord,
)
    requires
        first.to_multiset() == second.to_multiset(),
        describes(one, first),
        describes(other, second),
        one.key() == other.key(),
    ensures
        one.commit_count == other.commit_count,
        one.first_commit == other.first_commit,
        one.last_commit == other.last_commit,
        one.hourly_histogram@ == other.hourly_histogram@,
        one.work_pattern == other.work_pattern,
{
    lemma_visit_order_irrelevant(first, second, one.key());
    Instant::lemma_view_determines(one.first_commit, other.first_commit);
    Instant::lemma_view_determines(one.last_commit, other.last_commit);
}

} // verus!
