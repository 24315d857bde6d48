use git_analyzer::activity::{collect_activity_data, count_month, MonthCount};
use git_analyzer::chart::{bar_width, day_period, hourly_chart, peak_commits, DayPeriod};
use git_analyzer::commit::CommitRecord;
use std::collections::HashMap;

fn commit(name: &str, secs: i64) -> CommitRecord {
    CommitRecord::new(Some(name), Some("x@example.com"), secs, None)
}

#[test]
fn commits_are_counted_by_month_for_all_contributors() {
    let history = vec![
        commit("Ada", 1_710_513_000),
        commit("Bob", 1_704_103_200),
        commit("Ada", 1_704_506_400),
        commit("Cy", 1_704_067_199),
        commit("Bob", 1_709_197_200),
        commit("Ada", 1_705_053_600),
    ];
    let activity = collect_activity_data(&history);
    let mut months: Vec<(&str, u32)> =
        activity.monthly_commits.iter().map(|m| (m.month.as_str(), m.commits)).collect();
    months.sort();
    assert_eq!(months, vec![("2023-12", 1), ("2024-01", 3), ("2024-02", 1), ("2024-03", 1)]);
}

#[test]
fn commits_are_counted_by_hour_for_all_contributors() {
    let history = vec![
        commit("Ada", 1_704_103_200),
        commit("Bob", 1_704_189_600),
        commit("Ada", 1_704_506_400),
        commit("Cy", 1_704_067_199),
        commit("Bob", 1_704_150_000),
    ];
    let activity = collect_activity_data(&history);
    assert_eq!(activity.hourly_commits.len(), 3);
    assert_eq!(activity.hourly_commits.get(&10), Some(&2));
    assert_eq!(activity.hourly_commits.get(&2), Some(&1));
    assert_eq!(activity.hourly_commits.get(&23), Some(&2));
    assert_eq!(activity.hourly_commits.get(&11), None);
}

#[test]
fn activity_does_not_depend_on_the_order_of_the_walk() {
    let mut history = vec![
        commit("Ada", 1_710_513_000),
        commit("Bob", 1_704_103_200),
        commit("Ada", 1_704_506_400),
        commit("Bob", 1_709_197_200),
    ];
    let forward = collect_activity_data(&history);
    history.reverse();
    let backward = collect_activity_data(&history);
    assert_eq!(forward.hourly_commits, backward.hourly_commits);
    let mut one: Vec<(String, u32)> =
        forward.monthly_commits.iter().map(|m| (m.month.clone(), m.commits)).collect();
    let mut other: Vec<(String, u32)> =
        backward.monthly_commits.iter().map(|m| (m.month.clone(), m.commits)).collect();
    one.sort();
    other.sort();
    assert_eq!(one, other);
}

#[test]
fn empty_history_has_no_activity() {
    let activity = collect_activity_data(&[]);
    assert!(activity.monthly_commits.is_empty());
    assert!(activity.hourly_commits.is_empty());
}

#[test]
fn chart_has_a_row_for_each_hour() {
    let mut hourly: HashMap<u8, u32> = HashMap::new();
    hourly.insert(9, 100);
    hourly.insert(10, 50);
    hourly.insert(23, 1);
    hourly.insert(3, 33);
    let rows = hourly_chart(&hourly);
    assert_eq!(rows.len(), 24);
    for (hour, row) in rows.iter().enumerate() {
        assert_eq!(usize::from(row.hour), hour);
        assert_eq!(usize::from(row.next_hour), (hour + 1) % 24);
        assert_eq!(row.bar_width + row.empty_width, 50);
    }
    assert_eq!((rows[9].commits, rows[9].bar_width, rows[9].empty_width), (100, 50, 0));
    assert_eq!((rows[10].commits, rows[10].bar_width, rows[10].empty_width), (50, 25, 25));
    assert_eq!((rows[23].commits, rows[23].bar_width, rows[23].empty_width), (1, 1, 49));
    assert_eq!((rows[3].commits, rows[3].bar_width, rows[3].empty_width), (33, 16, 34));
    assert_eq!((rows[0].commits, rows[0].bar_width, rows[0].empty_width), (0, 0, 50));
    assert_eq!(rows[23].next_hour, 0);
}

#[test]
fn chart_of_no_commits_has_empty_bars() {
    let rows = hourly_chart(&HashMap::new());
    assert_eq!(rows.len(), 24);
    for row in &rows {
        assert_eq!(row.commits, 0);
        assert_eq!(row.bar_width, 0);
        assert_eq!(row.empty_width, 50);
    }
}

#[test]
fn chart_scales_by_the_busiest_key() {
    let mut hourly: HashMap<u8, u32> = HashMap::new();
    hourly.insert(5, 10);
    hourly.insert(200, 40);
    assert_eq!(peak_commits(&hourly), 40);
    let rows = hourly_chart(&hourly);
    assert_eq!(rows[5].bar_width, 12);
    assert_eq!(rows[5].empty_width, 38);
}

#[test]
fn peak_is_the_greatest_count() {
    let mut hourly: HashMap<u8, u32> = HashMap::new();
    assert_eq!(peak_commits(&hourly), 0);
    hourly.insert(0, 7);
    hourly.insert(255, 9);
    hourly.insert(12, 8);
    assert_eq!(peak_commits(&hourly), 9);
}

#[test]
fn bar_is_the_share_of_the_busiest_hour() {
    assert_eq!(bar_width(0, 0), 0);
    assert_eq!(bar_width(0, 10), 0);
    assert_eq!(bar_width(10, 10), 50);
    assert_eq!(bar_width(1, 1_000), 1);
    assert_eq!(bar_width(3, 7), 21);
    assert_eq!(bar_width(u32::MAX, u32::MAX), 50);
    assert_eq!(bar_width(u32::MAX - 1, u32::MAX), 49);
}

#[test]
fn hours_lie_in_their_part_of_the_day() {
    let expected = [
        (0, DayPeriod::Night),
        (5, DayPeriod::Night),
        (6, DayPeriod::Morning),
        (8, DayPeriod::Morning),
        (9, DayPeriod::Day),
        (17, DayPeriod::Day),
        (18, DayPeriod::Evening),
        (21, DayPeriod::Evening),
        (22, DayPeriod::Night),
        (23, DayPeriod::Night),
    ];
    for (hour, period) in expected {
        assert_eq!(day_period(hour), period);
    }
}

#[test]
fn counting_a_month_adds_to_its_entry_or_appends_one() {
    let mut entries: Vec<MonthCount> = Vec::new();
    count_month(&mut entries, "2024-01".to_string());
    count_month(&mut entries, "2023-12".to_string());
    count_month(&mut entries, "2024-01".to_string());
    count_month(&mut entries, "2024-01".to_string());
    let listed: Vec<(&str, u32)> = entries.iter().map(|m| (m.month.as_str(), m.commits)).collect();
    assert_eq!(listed, vec![("2024-01", 3), ("2023-12", 1)]);
}
