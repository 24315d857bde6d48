use git_analyzer::commit::CommitRecord;
use git_analyzer::contributors::{collect_contributor_data, ContributorRecord};
use git_analyzer::histogram::calculate_hourly_distribution;
use git_analyzer::instant::Instant;
use git_analyzer::pattern::PatternType;

const WEEKDAYS_AT_TEN: [i64; 5] =
    [1_704_103_200, 1_704_189_600, 1_704_276_000, 1_704_362_400, 1_704_448_800];
const SATURDAY_AT_TWO: i64 = 1_704_506_400;

fn commit(name: &str, email: &str, secs: i64) -> CommitRecord {
    CommitRecord::new(Some(name), Some(email), secs, None)
}

fn alice_and_bob() -> Vec<CommitRecord> {
    let mut commits = Vec::new();
    commits.push(commit("Bob", "b@x.com", SATURDAY_AT_TWO));
    for secs in WEEKDAYS_AT_TEN.iter().rev() {
        commits.push(commit("Alice", "a@x.com", *secs));
    }
    commits
}

fn find<'a>(records: &'a [ContributorRecord], name: &str) -> &'a ContributorRecord {
    records.iter().find(|r| r.name == name).expect("a record for the name")
}

fn seconds(instants: &[Instant]) -> Vec<i64> {
    instants.iter().map(|t| t.timestamp()).collect()
}

#[test]
fn six_commits_of_alice_and_bob() {
    let records = collect_contributor_data(&alice_and_bob());
    assert_eq!(records.len(), 2);
    let alice = &records[0];
    assert_eq!(alice.name, "Alice");
    assert_eq!(alice.email, "a@x.com");
    assert_eq!(alice.commit_count, 5);
    assert_eq!(alice.work_pattern.pattern_type, PatternType::DayWorker);
    assert_eq!(alice.work_pattern.day_commits, 5);
    assert_eq!(alice.work_pattern.confidence.numerator, 5);
    assert_eq!(alice.work_pattern.confidence.denominator, 5);
    let bob = &records[1];
    assert_eq!(bob.name, "Bob");
    assert_eq!(bob.email, "b@x.com");
    assert_eq!(bob.commit_count, 1);
    assert_eq!(bob.work_pattern.pattern_type, PatternType::Unknown);
    assert_eq!(bob.work_pattern.confidence.numerator, 0);
    assert_eq!(bob.work_pattern.night_commits, 1);
    assert_eq!(bob.work_pattern.weekend_commits, 1);
}

#[test]
fn first_and_last_commit_are_the_earliest_and_latest() {
    let records = collect_contributor_data(&alice_and_bob());
    let alice = find(&records, "Alice");
    assert_eq!(alice.first_commit.timestamp(), 1_704_103_200);
    assert_eq!(alice.last_commit.timestamp(), 1_704_448_800);
    let bob = find(&records, "Bob");
    assert_eq!(bob.first_commit.timestamp(), SATURDAY_AT_TWO);
    assert_eq!(bob.last_commit.timestamp(), SATURDAY_AT_TWO);
}

#[test]
fn timestamps_keep_the_order_of_the_walk() {
    let records = collect_contributor_data(&alice_and_bob());
    let alice = find(&records, "Alice");
    let mut expected = WEEKDAYS_AT_TEN.to_vec();
    expected.reverse();
    assert_eq!(seconds(&alice.timestamps), expected);
}

#[test]
fn histogram_counts_the_hours_of_one_contributor() {
    let records = collect_contributor_data(&alice_and_bob());
    let alice = find(&records, "Alice");
    assert_eq!(alice.hourly_histogram.len(), 1);
    assert_eq!(alice.hourly_histogram.get(&10), Some(&5));
    let bob = find(&records, "Bob");
    assert_eq!(bob.hourly_histogram.len(), 1);
    assert_eq!(bob.hourly_histogram.get(&2), Some(&1));
    assert_eq!(bob.hourly_histogram.get(&10), None);
}

#[test]
fn visit_order_does_not_change_what_is_counted() {
    let mut commits = alice_and_bob();
    commits.push(commit("Alice", "a@x.com", SATURDAY_AT_TWO));
    commits.push(commit("Carol", "c@x.com", 1_700_000_000));
    commits.push(commit("Carol", "c@x.com", 946_684_800));
    let forward = collect_contributor_data(&commits);
    commits.reverse();
    let backward = collect_contributor_data(&commits);
    commits.rotate_left(3);
    let rotated = collect_contributor_data(&commits);
    assert_eq!(forward.len(), 3);
    for other in [&backward, &rotated] {
        assert_eq!(other.len(), 3);
        for record in &forward {
            let same = find(other, &record.name);
            assert_eq!(same.email, record.email);
            assert_eq!(same.commit_count, record.commit_count);
            assert_eq!(same.first_commit.timestamp(), record.first_commit.timestamp());
            assert_eq!(same.last_commit.timestamp(), record.last_commit.timestamp());
            assert_eq!(same.hourly_histogram, record.hourly_histogram);
            assert_eq!(same.work_pattern, record.work_pattern);
        }
    }
    let alice = find(&forward, "Alice");
    assert_eq!(alice.commit_count, 6);
    assert_eq!(alice.first_commit.timestamp(), 1_704_103_200);
    assert_eq!(alice.last_commit.timestamp(), SATURDAY_AT_TWO);
    let carol = find(&forward, "Carol");
    assert_eq!(carol.first_commit.timestamp(), 946_684_800);
    assert_eq!(carol.last_commit.timestamp(), 1_700_000_000);
}

#[test]
fn records_come_with_most_commits_first() {
    let mut commits = Vec::new();
    commits.push(commit("One", "1@x.com", 100));
    for i in 0..3 {
        commits.push(commit("Three", "3@x.com", 1_000 + i));
    }
    for i in 0..2 {
        commits.push(commit("Two", "2@x.com", 2_000 + i));
    }
    for i in 0..7 {
        commits.push(commit("Seven", "7@x.com", 3_000 + i));
    }
    let records = collect_contributor_data(&commits);
    let counts: Vec<u32> = records.iter().map(|r| r.commit_count).collect();
    assert_eq!(counts, vec![7, 3, 2, 1]);
    let names: Vec<&str> = records.iter().map(|r| r.name.as_str()).collect();
    assert_eq!(names, vec!["Seven", "Three", "Two", "One"]);
}

#[test]
fn same_name_with_two_addresses_is_two_contributors() {
    let commits = vec![
        commit("Ada", "ada@home.example", 10),
        commit("Ada", "ada@work.example", 20),
        commit("Ada", "ada@home.example", 30),
    ];
    let records = collect_contributor_data(&commits);
    assert_eq!(records.len(), 2);
    assert_eq!(records[0].email, "ada@home.example");
    assert_eq!(records[0].commit_count, 2);
    assert_eq!(records[1].email, "ada@work.example");
    assert_eq!(records[1].commit_count, 1);
}

#[test]
fn missing_name_and_address_get_their_defaults() {
    let commits = vec![
        CommitRecord::new(None, None, 10, None),
        CommitRecord::new(None, Some("x@y.z"), 20, None),
        CommitRecord::new(Some("Unknown"), Some("unknown@example.com"), 30, None),
    ];
    assert_eq!(commits[0].author_name, "Unknown");
    assert_eq!(commits[0].author_email, "unknown@example.com");
    assert_eq!(commits[1].author_name, "Unknown");
    assert_eq!(commits[1].author_email, "x@y.z");
    let records = collect_contributor_data(&commits);
    assert_eq!(records.len(), 2);
    assert_eq!(records[0].name, "Unknown");
    assert_eq!(records[0].email, "unknown@example.com");
    assert_eq!(records[0].commit_count, 2);
    assert_eq!(records[1].commit_count, 1);
}

#[test]
fn identity_is_name_and_address_in_brackets() {
    let c = commit("Ada Lovelace", "ada@example.com", 0);
    assert_eq!(c.identity(), "Ada Lovelace <ada@example.com>");
    assert_eq!(CommitRecord::new(None, None, 0, None).identity(), "Unknown <unknown@example.com>");
}

#[test]
fn authors_with_the_same_identity_text_share_a_record() {
    let commits = vec![commit("A <b>", "c", 10), commit("A", "b> <c", 20)];
    assert_eq!(commits[0].identity(), commits[1].identity());
    let records = collect_contributor_data(&commits);
    assert_eq!(records.len(), 1);
    assert_eq!(records[0].name, "A <b>");
    assert_eq!(records[0].email, "c");
    assert_eq!(records[0].commit_count, 2);
}

#[test]
fn unrepresentable_time_counts_as_the_epoch() {
    let commits = vec![commit("Ada", "a@x.com", i64::MAX), commit("Ada", "a@x.com", 5)];
    assert_eq!(commits[0].timestamp.timestamp(), 0);
    let records = collect_contributor_data(&commits);
    assert_eq!(records[0].first_commit.timestamp(), 0);
    assert_eq!(records[0].last_commit.timestamp(), 5);
}

#[test]
fn empty_history_has_no_contributors() {
    assert!(collect_contributor_data(&[]).is_empty());
}

#[test]
fn hourly_distribution_counts_each_hour() {
    let times: Vec<Instant> = [1_704_103_200, 1_704_189_600, 1_704_150_000, SATURDAY_AT_TWO, -1]
        .iter()
        .map(|s| Instant::from_timestamp(*s).expect("in range"))
        .collect();
    let hourly = calculate_hourly_distribution(&times);
    assert_eq!(hourly.len(), 3);
    assert_eq!(hourly.get(&10), Some(&2));
    assert_eq!(hourly.get(&23), Some(&2));
    assert_eq!(hourly.get(&2), Some(&1));
    assert_eq!(hourly.get(&0), None);
    assert!(calculate_hourly_distribution(&[]).is_empty());
}
