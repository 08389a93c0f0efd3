use regex::Regex;
use rustle::coalesce::merge_intervals;
use rustle::interval::Interval;
use rustle::matching::find_matching_lines;
use rustle::matching::process_lines;
use rustle::render::render_results;
use rustle::windows::create_intervals;

fn lines_of(texts: &[&str]) -> Vec<String> {
    texts.iter().map(|t| t.to_string()).collect()
}

fn interval(start: i128, end: i128) -> Interval {
    Interval::new(start, end).unwrap()
}

#[test]
fn find_matching_lines_reports_ascending_indices() {
    let lines = lines_of(&["abc", "bcd", "cde", "bxb"]);
    let regex = Regex::new("^b").unwrap();
    assert_eq!(find_matching_lines(&lines, &regex), vec![1, 3]);

    let regex = Regex::new("c").unwrap();
    assert_eq!(find_matching_lines(&lines, &regex), vec![0, 1, 2]);
}

#[test]
fn create_intervals_applies_margins() {
    let intervals = create_intervals(vec![0, 3, 10], 2, 1).unwrap();
    assert_eq!(intervals, vec![interval(0, 1), interval(1, 4), interval(8, 11)]);
}

#[test]
fn create_intervals_clamps_start_at_zero() {
    let intervals = create_intervals(vec![1], 5, 0).unwrap();
    assert_eq!(intervals, vec![interval(0, 1)]);
}

#[test]
fn create_intervals_handles_extreme_positions() {
    let intervals = create_intervals(vec![usize::MAX], 0, usize::MAX).unwrap();
    assert_eq!(intervals[0].start, usize::MAX as i128);
    assert_eq!(intervals[0].end, usize::MAX as i128 + usize::MAX as i128);
}

#[test]
fn merge_intervals_coalesces_overlapping_runs() {
    let merged = merge_intervals(vec![interval(0, 2), interval(2, 4), interval(4, 5), interval(7, 8)]);
    assert_eq!(merged, vec![interval(0, 5), interval(7, 8)]);
}

#[test]
fn merge_intervals_is_idempotent_on_coalesced_input() {
    let coalesced = vec![interval(0, 1), interval(3, 4), interval(6, 9)];
    assert_eq!(merge_intervals(coalesced.clone()), coalesced);

    let empty: Vec<Interval> = Vec::new();
    assert_eq!(merge_intervals(empty.clone()), empty);
}

#[test]
fn merge_intervals_preserves_covered_points() {
    let input = vec![interval(0, 2), interval(1, 4), interval(6, 6), interval(6, 8)];
    let merged = merge_intervals(input.clone());
    assert_eq!(merged, vec![interval(0, 4), interval(6, 8)]);
    for p in -2..12 {
        let in_input = input.iter().any(|iv| iv.start <= p && p <= iv.end);
        let in_merged = merged.iter().any(|iv| iv.start <= p && p <= iv.end);
        assert_eq!(in_input, in_merged);
    }
}

#[test]
fn scenario_one_match_with_symmetric_context() {
    let lines = lines_of(&["a", "MATCH", "c", "d", "e"]);
    let regex = Regex::new("MATCH").unwrap();
    let intervals = process_lines(&lines, &regex, 1, 1).unwrap();
    assert_eq!(intervals, vec![interval(0, 2)]);

    let rendered = render_results(&intervals, &lines);
    let expected = vec![
        (1, "a".to_string()),
        (2, "MATCH".to_string()),
        (3, "c".to_string()),
    ];
    assert_eq!(rendered, expected);
}

#[test]
fn scenario_adjacent_windows_stay_separate() {
    let lines = lines_of(&["a", "MATCH", "c", "MATCH", "e"]);
    let regex = Regex::new("MATCH").unwrap();
    let intervals = process_lines(&lines, &regex, 0, 1).unwrap();
    assert_eq!(intervals, vec![interval(1, 2), interval(3, 4)]);
}

#[test]
fn scenario_touching_windows_merge_into_one_block() {
    let lines = lines_of(&["a", "MATCH", "c", "MATCH", "e"]);
    let regex = Regex::new("MATCH").unwrap();
    let intervals = process_lines(&lines, &regex, 0, 2).unwrap();
    assert_eq!(intervals.len(), 1);
    assert_eq!(intervals[0].start, 1);

    let rendered = render_results(&intervals, &lines);
    let expected = vec![
        (2, "MATCH".to_string()),
        (3, "c".to_string()),
        (4, "MATCH".to_string()),
        (5, "e".to_string()),
    ];
    assert_eq!(rendered, expected);
}

#[test]
fn scenario_no_match_yields_empty_output() {
    let lines = lines_of(&["a", "b", "c"]);
    let regex = Regex::new("zzz").unwrap();
    let intervals = process_lines(&lines, &regex, 3, 3).unwrap();
    assert!(intervals.is_empty());
    assert!(render_results(&intervals, &lines).is_empty());
}

#[test]
fn render_clips_windows_to_the_file() {
    let lines = lines_of(&["a", "b", "c"]);
    let intervals = vec![interval(-2, 0), interval(2, 9)];
    let rendered = render_results(&intervals, &lines);
    let expected = vec![(1, "a".to_string()), (3, "c".to_string())];
    assert_eq!(rendered, expected);
}

#[test]
fn render_on_empty_file_is_empty() {
    let lines: Vec<String> = Vec::new();
    let intervals = vec![interval(0, 4)];
    assert!(render_results(&intervals, &lines).is_empty());
}

#[test]
fn matches_on_every_line_make_one_block() {
    let lines = lines_of(&["x", "x", "x"]);
    let regex = Regex::new("x").unwrap();
    let intervals = process_lines(&lines, &regex, 0, 1).unwrap();
    assert_eq!(intervals, vec![interval(0, 3)]);
}

#[test]
fn matches_without_context_stay_single_lines() {
    let lines = lines_of(&["x", "x", "x"]);
    let regex = Regex::new("x").unwrap();
    let intervals = process_lines(&lines, &regex, 0, 0).unwrap();
    assert_eq!(intervals, vec![interval(0, 0), interval(1, 1), interval(2, 2)]);
}
