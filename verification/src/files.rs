//! How often each path was changed, and when last.

use crate::commit::CommitRecord;
use crate::contributors::lemma_min_max_push;
use crate::instant::Instant;
use crate::ranking::{descending, lemma_rearranged, sort_descending, Ranked};
use vstd::prelude::*;

verus! {

/// What the history tells of one path.
#[derive(Debug)]
pub struct FileRecord {
    pub path: String,
    /// How many times a commit changed the path.
    pub commits: u32,
    /// The latest instant of a commit that changed the path.
    pub last_modified: Instant,
}

impl Ranked for FileRecord {
    open spec fn rank(&self) -> nat {
        self.commits as nat
    }

    fn rank_value(&self) -> (value: u32) {
        self.commits
    }
}

/// One change of one path: the path, and the instant of the commit that made
/// the change.
pub struct Touch {
    pub path: Seq<char>,
    pub time: int,
}

/// The changes that `commit` made, one for each of its changed paths, in
/// their order.
pub open spec fn touches_of(commit: CommitRecord) -> Seq<Touch> {
    commit.changed_paths@.map_values(|path: String| Touch { path: path@, time: commit.timestamp@ })
}

/// The changes that `commits` made, commit after commit in the order of the
/// walk. A commit without a parent has no changed paths and adds nothing.
pub open spec fn all_touches(commits: Seq<CommitRecord>) -> Seq<Touch>
    decreases commits.len(),
{
    if commits.len() == 0 {
        Seq::<Touch>::empty()
    } else {
        all_touches(commits.drop_last()) + touches_of(commits.last())
    }
}

/// The predicate "is a change of `path`".
pub open spec fn on_path(path: Seq<char>) -> spec_fn(Touch) -> bool {
    |touch: Touch| touch.path == path
}

/// The instants at which `path` was changed.
pub open spec fn touch_times(touches: Seq<Touch>, path: Seq<char>) -> Seq<int> {
    touches.filter(on_path(path)).map_values(|touch: Touch| touch.time)
}

/// Whether `record` is the account of its path among `touches`: the path was
/// changed at least once, `commits` counts its changes and `last_modified` is
/// the latest of them.
pub open spec fn tracks(record: FileRecord, touches: Seq<Touch>) -> bool {
    let times = touch_times(touches, record.path@);
    &&& times.len() > 0
    &&& record.commits == times.len()
    &&& record.last_modified@ == times.max()
}

/// Whether one of `records` is the record of `path`.
pub open spec fn has_path(records: Seq<FileRecord>, path: Seq<char>) -> bool {
    exists|i: int| 0 <= i < records.len() && (#[trigger] records[i]).path@ == path
}

/// Whether no two of `records` are records of the same path.
pub open spec fn distinct_paths(records: Seq<FileRecord>) -> bool {
    forall|i: int, j: int|
        0 <= i < j < records.len() ==> (#[trigger] records[i]).path@ != (#[trigger] records[j]).path@
}

/// Whether every path that `touches` change has a record among `records`.
pub open spec fn covers(records: Seq<FileRecord>, touches: Seq<Touch>) -> bool {
    forall|k: int| 0 <= k < touches.len() ==> has_path(records, (#[trigger] touches[k]).path)
}

/// One more change adds its instant to the list of its own path and leaves the
/// lists of all others as they were.
pub proof fn lemma_touch_times_push(touches: Seq<Touch>, touch: Touch, path: Seq<char>)
    ensures
        touch_times(touches.push(touch), path) == (if touch.path == path {
            touch_times(touches, path).push(touch.time)
        } else {
            touch_times(touches, path)
        }),
        touch_times(touches, path).len() <= touches.len(),
{
    touches.lemma_filter_push(touch, on_path(path));
    touches.lemma_filter_len(on_path(path));
    if touch.path == path {
        assert(touches.filter(on_path(path)).push(touch).map_values(|t: Touch| t.time)
            =~= touch_times(touches, path).push(touch.time));
    }
}

/// A path without a record was not changed by any change that the records cover.
proof fn lemma_untouched_path(records: Seq<FileRecord>, touches: Seq<Touch>, path: Seq<char>)
    requires
        covers(records, touches),
        !has_path(records, path),
    ensures
        touch_times(touches, path).len() == 0,
{
    let own = touches.filter(on_path(path));
    if own.len() > 0 {
        touches.lemma_filter_pred(on_path(path), 0);
        assert(own.contains(own[0]));
        touches.lemma_filter_contains_rev(on_path(path), own[0]);
        let k = choose|k: int| 0 <= k < touches.len() && touches[k] == own[0];
        assert(has_path(records, touches[k].path));
    }
}

/// The changes of a history that ends with `commit` are those before it,
/// followed by its own.
pub proof fn lemma_all_touches_push(commits: Seq<CommitRecord>, commit: CommitRecord)
    ensures
        all_touches(commits.push(commit)) == all_touches(commits) + touches_of(commit),
{
    assert(commits.push(commit).drop_last() =~= commits);
}

/// The position of the record of `path`, if there is one.
fn find_path(records: &Vec<FileRecord>, path: &String) -> (found: Option<usize>)
    ensures
        match found {
            Some(i) => i < records.len() && records[i as int].path@ == path@,
            None => !has_path(records@, path@),
        },
{
    let mut i: usize = 0;
    while i < records.len()
        invariant
            i <= records.len(),
            forall|j: int| 0 <= j < i ==> records[j].path@ != path@,
        decreases records.len() - i,
    {
        if records[i].path == *path {
            return Some(i);
        }
        i = i + 1;
    }
    None
}

/// Counts one more change, made at `time`, of the path of `record`.
fn note_change(record: &mut FileRecord, time: Instant)
    requires
        old(record).commits < u32::MAX,
    ensures
        final(record).path == old(record).path,
        final(record).commits == old(record).commits + 1,
        final(record).last_modified@ == (if time@ > old(record).last_modified@ {
            time@
        } else {
            old(record).last_modified@
        }),
{
    record.commits = record.commits + 1;
    if record.last_modified.is_before(&time) {
        record.last_modified = time;
    }
}

/// Takes one more change into the records: a new record for a path not seen
/// before, one more change counted for a path that has one.
fn record_touch(
    records: &mut Vec<FileRecord>,
    path: &String,
    time: Instant,
    Ghost(seen): Ghost<Seq<Touch>>,
)
    requires
        seen.len() < u32::MAX,
        distinct_paths(old(records)@),
        covers(old(records)@, seen),
        forall|i: int| 0 <= i < old(records).len() ==> tracks(#[trigger] old(records)[i], seen),
    ensures
        distinct_paths(final(records)@),
        covers(final(records)@, seen.push(Touch { path: path@, time: time@ })),
        forall|i: int|
            0 <= i < final(records).len() ==> tracks(
                #[trigger] final(records)[i],
                seen.push(Touch { path: path@, time: time@ }),
            ),
{
    let ghost touch = Touch { path: path@, time: time@ };
    let ghost before = records@;
    let ghost after = seen.push(touch);
    proof {
        assert forall|i: int| 0 <= i < before.len() implies touch_times(seen, before[i].path@).len()
            <= seen.len() by {
            lemma_touch_times_push(seen, touch, before[i].path@);
        }
    }
    match find_path(records, path) {
        Some(i) => {
            note_change(&mut records[i], time);
            proof {
                assert forall|j: int| 0 <= j < records.len() implies (#[trigger] records[j]).path
                    == before[j].path by {}
                assert forall|j: int| 0 <= j < records.len() implies tracks(
                    #[trigger] records[j],
                    after,
                ) by {
                    lemma_touch_times_push(seen, touch, before[j].path@);
                    if j == i {
                        lemma_min_max_push(touch_times(seen, path@), time@);
                    } else {
                        assert(records[j] == before[j]);
                        if j < i {
                            assert(before[j].path@ != before[i as int].path@);
                        } else {
                            assert(before[i as int].path@ != before[j].path@);
                        }
                    }
                }
                assert(distinct_paths(records@)) by {
                    assert forall|a: int, b: int| 0 <= a < b < records.len() implies (
                    #[trigger] records[a]).path@ != (#[trigger] records[b]).path@ by {
                        assert(before[a].path@ != before[b].path@);
                    }
                }
                assert(covers(records@, after)) by {
                    assert forall|k: int| 0 <= k < after.len() implies has_path(
                        records@,
                        (#[trigger] after[k]).path,
                    ) by {
                        if k < seen.len() {
                            assert(after[k] == seen[k]);
                            assert(has_path(before, seen[k].path));
                            let w = choose|w: int|
                                0 <= w < before.len() && (#[trigger] before[w]).path@
                                    == seen[k].path;
                            assert(records[w].path@ == before[w].path@);
                        } else {
                            assert(records[i as int].path@ == path@);
                        }
                    }
                }
            }
        },
        None => {
            let record = FileRecord { path: path.clone(), commits: 1, last_modified: time };
            proof {
                lemma_untouched_path(before, seen, path@);
                lemma_touch_times_push(seen, touch, path@);
                assert(touch_times(seen, path@) =~= Seq::<int>::empty());
                lemma_min_max_push(touch_times(seen, path@), time@);
                assert(tracks(record, after));
            }
            records.push(record);
            proof {
                assert forall|j: int| 0 <= j < records.len() implies tracks(
                    #[trigger] records[j],
                    after,
                ) by {
                    if j < before.len() {
                        assert(records[j] == before[j]);
                        assert(has_path(before, before[j].path@));
                        lemma_touch_times_push(seen, touch, before[j].path@);
                    }
                }
                assert(distinct_paths(records@)) by {
                    assert forall|a: int, b: int| 0 <= a < b < records.len() implies (
                    #[trigger] records[a]).path@ != (#[trigger] records[b]).path@ by {
                        assert(records[a] == before[a]);
                        assert(has_path(before, before[a].path@));
                        if b < before.len() {
                            assert(records[b] == before[b]);
                        }
                    }
                }
                assert(covers(records@, after)) by {
                    assert forall|k: int| 0 <= k < after.len() implies has_path(
                        records@,
                        (#[trigger] after[k]).path,
                    ) by {
                        if k < seen.len() {
                            assert(after[k] == seen[k]);
                            assert(has_path(before, seen[k].path));
                            let w = choose|w: int|
                                0 <= w < before.len() && (#[trigger] before[w]).path@
                                    == seen[k].path;
                            assert(records[w] == before[w]);
                        } else {
                            assert(records[before.len() as int].path@ == path@);
                        }
                    }
                }
            }
        },
    }
}

/// The number of changes that `commits` made, or `None` where it is more than
/// a record's count can hold.
pub fn total_changes(commits: &[CommitRecord]) -> (total: Option<u32>)
    ensures
        match total {
            Some(count) => count == all_touches(commits@).len(),
            None => all_touches(commits@).len() > u32::MAX,
        },
{
    let mut count: u32 = 0;
    let mut k: usize = 0;
    proof {
        assert(commits@.take(0) =~= Seq::<CommitRecord>::empty());
    }
    while k < commits.len()
        invariant
            k <= commits.len(),
            count == all_touches(commits@.take(k as int)).len(),
        decreases commits.len() - k,
    {
        let listed = commits[k].changed_paths.len();
        proof {
            assert(commits@.take(k + 1) =~= commits@.take(k as int).push(commits[k as int]));
            lemma_all_touches_push(commits@.take(k as int), commits[k as int]);
            lemma_touches_grow(commits@, k + 1);
        }
        if listed > (u32::MAX - count) as usize {
            return None;
        }
        count = count + listed as u32;
        k = k + 1;
    }
    proof {
        assert(commits@.take(k as int) =~= commits@);
    }
    Some(count)
}

/// Folds the changed paths of a history into one record for each path, ordered
/// by falling number of changes.
///
/// Each commit counts once for each path it lists. A file that was renamed
/// appears under both of its paths, each with its own count.
pub fn collect_file_data(commits: &[CommitRecord]) -> (files: Vec<FileRecord>)
    requires
        all_touches(commits@).len() <= u32::MAX,
    ensures
        descending(files@),
        distinct_paths(files@),
        forall|i: int| 0 <= i < files.len() ==> tracks(#[trigger] files[i], all_touches(commits@)),
        covers(files@, all_touches(commits@)),
{
    let mut records: Vec<FileRecord> = Vec::new();
    let mut k: usize = 0;
    proof {
        assert(commits@.take(0) =~= Seq::<CommitRecord>::empty());
    }
    while k < commits.len()
        invariant
            k <= commits.len(),
            all_touches(commits@).len() <= u32::MAX,
            all_touches(commits@.take(k as int)).len() <= all_touches(commits@).len(),
            distinct_paths(records@),
            covers(records@, all_touches(commits@.take(k as int))),
            forall|i: int|
                0 <= i < records.len() ==> tracks(
                    #[trigger] records[i],
                    all_touches(commits@.take(k as int)),
                ),
        decreases commits.len() - k,
    {
        let commit = &commits[k];
        let ghost earlier = all_touches(commits@.take(k as int));
        let ghost own = touches_of(*commit);
        proof {
            assert(commits@.take(k + 1) =~= commits@.take(k as int).push(*commit));
            lemma_all_touches_push(commits@.take(k as int), *commit);
            lemma_touches_grow(commits@, k + 1);
            assert(own.take(0) =~= Seq::<Touch>::empty());
            assert(earlier + own.take(0) =~= earlier);
        }
        let mut m: usize = 0;
        while m < commit.changed_paths.len()
            invariant
                m <= commit.changed_paths.len(),
                own == touches_of(*commit),
                own.len() == commit.changed_paths.len(),
                earlier.len() + own.len() <= u32::MAX,
                distinct_paths(records@),
                covers(records@, earlier + own.take(m as int)),
                forall|i: int|
                    0 <= i < records.len() ==> tracks(
                        #[trigger] records[i],
                        earlier + own.take(m as int),
                    ),
            decreases commit.changed_paths.len() - m,
        {
            let ghost seen = earlier + own.take(m as int);
            proof {
                assert(earlier + own.take(m + 1) =~= seen.push(own[m as int]));
            }
            record_touch(&mut records, &commit.changed_paths[m], commit.timestamp, Ghost(seen));
            m = m + 1;
        }
        proof {
            assert(own.take(m as int) =~= own);
        }
        k = k + 1;
    }
    proof {
        assert(commits@.take(k as int) =~= commits@);
    }
    let ghost finished = records@;
    let ghost touches = all_touches(commits@);
    let sorted = sort_descending(records);
    proof {
        lemma_rearranged(finished, sorted@);
        lemma_paths_carry_over(finished, sorted@);
        assert forall|i: int| 0 <= i < sorted.len() implies tracks(
            #[trigger] sorted[i],
            touches,
        ) by {
            assert(finished.contains(sorted[i]));
        }
        assert forall|k: int| 0 <= k < touches.len() implies has_path(
            sorted@,
            (#[trigger] touches[k]).path,
        ) by {
            assert(has_path(finished, touches[k].path));
            let w = choose|w: int|
                0 <= w < finished.len() && (#[trigger] finished[w]).path@ == touches[k].path;
            assert(sorted@.contains(finished[w]));
        }
    }
    sorted
}

/// The changes of the first `k` commits are among the changes of them all.
pub proof fn lemma_touches_grow(commits: Seq<CommitRecord>, k: int)
    requires
        0 <= k <= commits.len(),
    ensures
        all_touches(commits.take(k)).len() <= all_touches(commits).len(),
    decreases commits.len() - k,
{
    if k < commits.len() {
        lemma_touches_grow(commits, k + 1);
        assert(commits.take(k + 1).drop_last() =~= commits.take(k));
    } else {
        assert(commits.take(k) =~= commits);
    }
}

/// Records that are rearranged keep their paths apart.
pub proof fn lemma_paths_carry_over(records: Seq<FileRecord>, sorted: Seq<FileRecord>)
    requires
        sorted.to_multiset() == records.to_multiset(),
        distinct_paths(records),
    ensures
        distinct_paths(sorted),
{
    lemma_rearranged(records, sorted);
    assert(records.no_duplicates()) by {
        assert forall|i: int, j: int| 0 <= i < records.len() && 0 <= j < records.len() && i
            != j implies records[i] != records[j] by {
            if i < j {
                assert(records[i].path@ != records[j].path@);
            } else {
                assert(records[j].path@ != records[i].path@);
            }
        }
    }
    assert forall|a: int, b: int| 0 <= a < b < sorted.len() implies (#[trigger] sorted[a]).path@
        != (#[trigger] sorted[b]).path@ by {
        assert(records.contains(sorted[a]));
        assert(records.contains(sorted[b]));
        let i = choose|i: int| 0 <= i < records.len() && records[i] == sorted[a];
        let j = choose|j: int| 0 <= j < records.len() && records[j] == sorted[b];
        assert(sorted[a] != sorted[b]);
        if i < j {
            assert(records[i].path@ != records[j].path@);
        } else {
            assert(records[j].path@ != records[i].path@);
        }
    }
}

/// The path that commit `k` of `commits` lists at position `m`.
pub open spec fn listed_path(commits: Seq<CommitRecord>, k: int, m: int) -> Seq<char> {
    commits[k].changed_paths@[m]@
}

/// Whether some commit of `commits` lists `path` among its changed paths.
pub open spec fn lists_path(commits: Seq<CommitRecord>, path: Seq<char>) -> bool {
    exists|k: int, m: int|
        0 <= k < commits.len() && 0 <= m < commits[k].changed_paths@.len() && #[trigger] listed_path(
            commits,
            k,
            m,
        ) == path
}

/// Whether one of `touches` is a change of `path`.
pub open spec fn touches_path(touches: Seq<Touch>, path: Seq<char>) -> bool {
    exists|i: int| 0 <= i < touches.len() && (#[trigger] touches[i]).path == path
}

/// The changes of a history change exactly the paths that its commits list.
pub proof fn lemma_touched_iff_listed(commits: Seq<CommitRecord>, path: Seq<char>)
    ensures
        touches_path(all_touches(commits), path) <==> lists_path(commits, path),
    decreases commits.len(),
{
    if commits.len() > 0 {
        let rest = commits.drop_last();
        let last = commits.last();
        let n = rest.len() as int;
        let earlier = all_touches(rest);
        let own = touches_of(last);
        let all = all_touches(commits);
        lemma_touched_iff_listed(rest, path);
        if touches_path(all, path) {
            let i = choose|i: int| 0 <= i < all.len() && (#[trigger] all[i]).path == path;
            if i < earlier.len() {
                assert(earlier[i].path == path);
                assert(touches_path(earlier, path));
                let (k, m) = choose|k: int, m: int|
                    0 <= k < rest.len() && 0 <= m < rest[k].changed_paths@.len()
                        && #[trigger] listed_path(rest, k, m) == path;
                assert(listed_path(commits, k, m) == path);
            } else {
                assert(own[i - earlier.len()].path == path);
                assert(listed_path(commits, n, i - earlier.len()) == path);
            }
        }
        if lists_path(commits, path) {
            let (k, m) = choose|k: int, m: int|
                0 <= k < commits.len() && 0 <= m < commits[k].changed_paths@.len()
                    && #[trigger] listed_path(commits, k, m) == path;
            if k < n {
                assert(listed_path(rest, k, m) == path);
                assert(lists_path(rest, path));
                let i = choose|i: int|
                    0 <= i < earlier.len() && (#[trigger] earlier[i]).path == path;
                assert(all[i].path == path);
            } else {
                assert(own[m].path == path);
                assert(all[earlier.len() + m].path == path);
            }
        }
    }
}

/// A path has a record exactly if some commit lists it among its changed
/// paths. A path that only a commit without a parent holds is listed by no
/// commit, and has no record.
pub proof fn lemma_recorded_iff_listed(
    files: Seq<FileRecord>,
    commits: Seq<CommitRecord>,
    path: Seq<char>,
)
    requires
        covers(files, all_touches(commits)),
        forall|i: int| 0 <= i < files.len() ==> tracks(#[trigger] files[i], all_touches(commits)),
    ensures
        has_path(files, path) <==> lists_path(commits, path),
{
    let touches = all_touches(commits);
    lemma_touched_iff_listed(commits, path);
    if has_path(files, path) {
        let i = choose|i: int| 0 <= i < files.len() && (#[trigger] files[i]).path@ == path;
        assert(tracks(files[i], touches));
        let own = touches.filter(on_path(path));
        assert(own.len() > 0);
        touches.lemma_filter_pred(on_path(path), 0);
        assert(own.contains(own[0]));
        touches.lemma_filter_contains_rev(on_path(path), own[0]);
        let k = choose|k: int| 0 <= k < touches.len() && touches[k] == own[0];
        assert(touches[k].path == path);
    }
    if touches_path(touches, path) {
        let k = choose|k: int| 0 <= k < touches.len() && (#[trigger] touches[k]).path == path;
        assert(has_path(files, touches[k].path));
    }
}

/// Whether no commit of `commits` lists a path twice.
pub open spec fn lists_once(commits: Seq<CommitRecord>) -> bool {
    forall|k: int, m: int, n: int|
        0 <= k < commits.len() && 0 <= m < n < commits[k].changed_paths@.len() ==> #[trigger] listed_path(
            commits,
            k,
            m,
        ) != #[trigger] listed_path(commits, k, n)
}

/// The predicate "lists `path` among its changed paths".
pub open spec fn changing(path: Seq<char>) -> spec_fn(CommitRecord) -> bool {
    |commit: CommitRecord| touches_path(touches_of(commit), path)
}

/// Among changes of different paths, a path is changed once or not at all.
pub proof fn lemma_changed_once(touches: Seq<Touch>, path: Seq<char>)
    requires
        forall|m: int, n: int|
            0 <= m < n < touches.len() ==> (#[trigger] touches[m]).path != (#[trigger] touches[n]).path,
    ensures
        touches.filter(on_path(path)).len() == (if touches_path(touches, path) {
            1int
        } else {
            0int
        }),
    decreases touches.len(),
{
    if touches.len() == 0 {
        touches.lemma_filter_len(on_path(path));
    } else {
        let front = touches.drop_last();
        let last = touches.last();
        assert(touches =~= front.push(last));
        assert forall|m: int, n: int| 0 <= m < n < front.len() implies (#[trigger] front[m]).path
            != (#[trigger] front[n]).path by {
            assert(touches[m].path != touches[n].path);
        }
        lemma_changed_once(front, path);
        front.lemma_filter_len_push(on_path(path), last);
        if touches_path(front, path) {
            let m = choose|m: int| 0 <= m < front.len() && (#[trigger] front[m]).path == path;
            assert(touches[m].path == path);
            assert(touches[m].path != touches[front.len() as int].path);
        } else if last.path == path {
            assert(touches[front.len() as int].path == path);
        } else if touches_path(touches, path) {
            let m = choose|m: int| 0 <= m < touches.len() && (#[trigger] touches[m]).path == path;
            assert(front[m].path == path);
        }
    }
}

/// Where no commit lists a path twice, the number of changes of a path is the
/// number of commits that changed it.
pub proof fn lemma_counts_commits(commits: Seq<CommitRecord>, path: Seq<char>)
    requires
        lists_once(commits),
    ensures
        touch_times(all_touches(commits), path).len() == commits.filter(changing(path)).len(),
    decreases commits.len(),
{
    if commits.len() == 0 {
        all_touches(commits).lemma_filter_len(on_path(path));
        commits.lemma_filter_len(changing(path));
    } else {
        let rest = commits.drop_last();
        let last = commits.last();
        let own = touches_of(last);
        let k = rest.len() as int;
        assert(commits =~= rest.push(last));
        assert(lists_once(rest)) by {
            assert forall|j: int, m: int, n: int|
                0 <= j < rest.len() && 0 <= m < n < rest[j].changed_paths@.len() implies #[trigger] listed_path(
                rest,
                j,
                m,
            ) != #[trigger] listed_path(rest, j, n) by {
                assert(listed_path(commits, j, m) != listed_path(commits, j, n));
            }
        }
        lemma_counts_commits(rest, path);
        assert forall|m: int, n: int| 0 <= m < n < own.len() implies (#[trigger] own[m]).path != (
        #[trigger] own[n]).path by {
            assert(listed_path(commits, k, m) != listed_path(commits, k, n));
        }
        lemma_changed_once(own, path);
        Seq::filter_distributes_over_add(all_touches(rest), own, on_path(path));
        rest.lemma_filter_len_push(changing(path), last);
    }
}

} // verus!
