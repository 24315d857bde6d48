use git_analyzer::instant::Instant;
use git_analyzer::pattern::{calculate_work_pattern, Confidence, PatternType, WorkPattern};

const WEEKDAYS_AT_TEN: [i64; 10] = [
    1_704_103_200,
    1_704_189_600,
    1_704_276_000,
    1_704_362_400,
    1_704_448_800,
    1_704_708_000,
    1_704_794_400,
    1_704_880_800,
    1_704_967_200,
    1_705_053_600,
];

const HOUR: i64 = 3_600;

fn instants(seconds: &[i64]) -> Vec<Instant> {
    seconds.iter().map(|s| Instant::from_timestamp(*s).expect("in range")).collect()
}

fn ratio(confidence: Confidence) -> f64 {
    confidence.numerator as f64 / confidence.denominator as f64
}

#[test]
fn fewer_than_five_commits_are_unknown() {
    for n in 0..5 {
        let pattern = calculate_work_pattern(&instants(&WEEKDAYS_AT_TEN[..n]));
        assert_eq!(pattern.pattern_type, PatternType::Unknown);
        assert_eq!(pattern.confidence.numerator, 0);
        assert_eq!(ratio(pattern.confidence), 0.0);
        assert_eq!(pattern.day_commits as usize, n);
        assert_eq!(pattern.night_commits, 0);
    }
}

#[test]
fn fewer_than_five_commits_are_unknown_whatever_their_hours() {
    let weekend_night = instants(&[1_704_506_400, 1_704_506_400, 1_704_628_800, 1_704_150_000]);
    let pattern = calculate_work_pattern(&weekend_night);
    assert_eq!(pattern.pattern_type, PatternType::Unknown);
    assert_eq!(ratio(pattern.confidence), 0.0);
    assert_eq!(pattern.day_commits, 1);
    assert_eq!(pattern.night_commits, 3);
    assert_eq!(pattern.weekend_commits, 3);
}

#[test]
fn ten_weekday_commits_at_ten_are_a_day_worker() {
    let pattern = calculate_work_pattern(&instants(&WEEKDAYS_AT_TEN));
    assert_eq!(pattern.pattern_type, PatternType::DayWorker);
    assert_eq!(pattern.day_commits, 10);
    assert_eq!(pattern.night_commits, 0);
    assert_eq!(pattern.weekend_commits, 0);
    assert_eq!(ratio(pattern.confidence), 1.0);
    assert_eq!(pattern.confidence, Confidence { numerator: 10, denominator: 10 });
}

#[test]
fn ten_weekday_commits_at_eleven_at_night_are_a_moonlighter() {
    let late: Vec<i64> = WEEKDAYS_AT_TEN.iter().map(|s| s + 13 * HOUR).collect();
    let pattern = calculate_work_pattern(&instants(&late));
    assert_eq!(pattern.pattern_type, PatternType::Moonlighter);
    assert_eq!(pattern.day_commits, 0);
    assert_eq!(pattern.night_commits, 10);
    assert_eq!(pattern.weekend_commits, 0);
    assert_eq!(ratio(pattern.confidence), 1.0);
    assert_eq!(pattern.confidence, Confidence { numerator: 20, denominator: 20 });
}

#[test]
fn five_day_and_five_night_commits_are_mixed() {
    let mut seconds: Vec<i64> = WEEKDAYS_AT_TEN[..5].to_vec();
    seconds.extend(WEEKDAYS_AT_TEN[5..].iter().map(|s| s + 13 * HOUR));
    let pattern = calculate_work_pattern(&instants(&seconds));
    assert_eq!(pattern.pattern_type, PatternType::Mixed);
    assert_eq!(pattern.day_commits, 5);
    assert_eq!(pattern.night_commits, 5);
    assert_eq!(pattern.weekend_commits, 0);
    assert_eq!(ratio(pattern.confidence), 1.0);
    assert_eq!(pattern.confidence, Confidence { numerator: 10, denominator: 10 });
}

#[test]
fn day_starts_at_nine_and_ends_before_six() {
    let edges = instants(&[1_709_197_199, 1_709_197_200, 1_709_229_599, 1_709_229_600]);
    let hours: Vec<u32> = edges.iter().map(|t| t.hour()).collect();
    assert_eq!(hours, vec![8, 9, 17, 18]);
    let pattern = calculate_work_pattern(&edges);
    assert_eq!(pattern.day_commits, 2);
    assert_eq!(pattern.night_commits, 2);
}

#[test]
fn weekend_commit_counts_by_its_hour_too() {
    let pattern = calculate_work_pattern(&instants(&[1_704_535_200, 1_704_506_400]));
    assert_eq!(pattern.weekend_commits, 2);
    assert_eq!(pattern.day_commits, 1);
    assert_eq!(pattern.night_commits, 1);
}

#[test]
fn seven_day_commits_in_ten_are_a_day_worker() {
    let pattern = WorkPattern::from_counts(7, 3, 0);
    assert_eq!(pattern.pattern_type, PatternType::DayWorker);
    assert_eq!(pattern.confidence, Confidence { numerator: 7, denominator: 10 });
    let below = WorkPattern::from_counts(69, 31, 0);
    assert_eq!(below.pattern_type, PatternType::Mixed);
    assert_eq!(below.confidence, Confidence { numerator: 62, denominator: 100 });
}

#[test]
fn three_weekend_commits_in_ten_are_no_day_worker() {
    let pattern = WorkPattern::from_counts(10, 0, 3);
    assert_eq!(pattern.pattern_type, PatternType::Mixed);
    assert_eq!(pattern.confidence, Confidence { numerator: 0, denominator: 10 });
    let under = WorkPattern::from_counts(100, 0, 29);
    assert_eq!(under.pattern_type, PatternType::DayWorker);
    assert_eq!(under.confidence, Confidence { numerator: 100, denominator: 100 });
}

#[test]
fn six_night_commits_in_ten_are_a_moonlighter() {
    let pattern = WorkPattern::from_counts(4, 6, 0);
    assert_eq!(pattern.pattern_type, PatternType::Moonlighter);
    assert_eq!(pattern.confidence, Confidence { numerator: 12, denominator: 20 });
    assert_eq!(ratio(pattern.confidence), 0.6);
    let below = WorkPattern::from_counts(41, 59, 0);
    assert_eq!(below.pattern_type, PatternType::Mixed);
    assert_eq!(below.confidence, Confidence { numerator: 82, denominator: 100 });
}

#[test]
fn four_weekend_commits_in_ten_are_a_moonlighter() {
    let pattern = WorkPattern::from_counts(10, 0, 4);
    assert_eq!(pattern.pattern_type, PatternType::Moonlighter);
    assert_eq!(pattern.confidence, Confidence { numerator: 4, denominator: 20 });
    assert_eq!(ratio(pattern.confidence), 0.2);
}

#[test]
fn moonlighter_confidence_stops_at_one() {
    let pattern = WorkPattern::from_counts(0, 10, 10);
    assert_eq!(pattern.pattern_type, PatternType::Moonlighter);
    assert_eq!(pattern.confidence, Confidence { numerator: 20, denominator: 20 });
    let partly = WorkPattern::from_counts(2, 8, 2);
    assert_eq!(partly.pattern_type, PatternType::Moonlighter);
    assert_eq!(partly.confidence, Confidence { numerator: 18, denominator: 20 });
    assert_eq!(ratio(partly.confidence), 0.9);
}

#[test]
fn day_worker_rule_is_tried_before_moonlighter() {
    // Seven day commits in ten and two weekend commits: both the day rule and
    // no other applies; with four weekend commits only the weekend rule does.
    assert_eq!(WorkPattern::from_counts(7, 3, 2).pattern_type, PatternType::DayWorker);
    assert_eq!(WorkPattern::from_counts(7, 3, 4).pattern_type, PatternType::Moonlighter);
}

#[test]
fn empty_history_is_unknown() {
    let pattern = calculate_work_pattern(&[]);
    assert_eq!(pattern, WorkPattern::unknown());
    assert_eq!(pattern.pattern_type, PatternType::Unknown);
    assert_eq!(pattern.confidence, Confidence { numerator: 0, denominator: 1 });
}

#[test]
fn labels_are_spelled_in_lower_case() {
    assert_eq!(PatternType::DayWorker.as_str(), "day_worker");
    assert_eq!(PatternType::Moonlighter.as_str(), "moonlighter");
    assert_eq!(PatternType::Mixed.as_str(), "mixed");
    assert_eq!(PatternType::Unknown.as_str(), "unknown");
}

#[test]
fn pattern_does_not_depend_on_the_order_of_the_instants() {
    let mut seconds: Vec<i64> = WEEKDAYS_AT_TEN[..6].to_vec();
    seconds.push(1_704_506_400);
    seconds.push(1_704_150_000);
    let forward = calculate_work_pattern(&instants(&seconds));
    seconds.reverse();
    let backward = calculate_work_pattern(&instants(&seconds));
    assert_eq!(forward, backward);
}
