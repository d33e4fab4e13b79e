use cpu_monitor::aggregate::{AggregateError, Differences};
use cpu_monitor::counters::{calculate_time_diff, usage_percent, DeltaError};
use cpu_monitor::log::{append_record, find_record, store_differences, LogRecord};
use cpu_monitor::stat::{get_cpu_times, parse_counter_line, parse_number, StatError};
use cpu_monitor::window::{HistoryWindow, Snapshot};

fn snap(ts: u64, cpu: Vec<u64>, cores: Vec<Vec<u64>>) -> Snapshot {
    Snapshot::new(ts, cpu, cores)
}

#[test]
fn delta_is_fieldwise_difference() {
    let a = vec![100, 0, 50, 800, 0, 0, 0, 0, 0, 0];
    let b = vec![110, 0, 60, 850, 0, 0, 0, 0, 0, 0];
    let d = calculate_time_diff(&a, &b).unwrap();
    assert_eq!(d, vec![10, 0, 10, 50, 0, 0, 0, 0, 0, 0]);
}

#[test]
fn delta_surfaces_negative_values() {
    let d = calculate_time_diff(&[5, 7, 9], &[3, 7, 10]).unwrap();
    assert_eq!(d, vec![-2, 0, 1]);
}

#[test]
fn delta_rejects_mismatched_lengths() {
    assert_eq!(calculate_time_diff(&[1, 2], &[1, 2, 3]), Err(DeltaError::ShapeMismatch));
}

#[test]
fn delta_rejects_values_beyond_i64() {
    assert_eq!(calculate_time_diff(&[0], &[u64::MAX]), Err(DeltaError::OutOfRange));
    assert_eq!(calculate_time_diff(&[u64::MAX], &[0]), Err(DeltaError::OutOfRange));
}

#[test]
fn usage_sixty_percent() {
    // total 1000, idle 400, iowait 0
    let d = [300i64, 100, 200, 400, 0, 0, 0, 0, 0, 0];
    assert_eq!(usage_percent(&d), Some(6000));
}

#[test]
fn usage_zero_total_has_no_value() {
    assert_eq!(usage_percent(&[0i64; 10]), None);
}

#[test]
fn usage_rounds_to_two_decimals() {
    // 2 busy of 3: 66.666..% rounds to 66.67%
    let d = [2i64, 0, 0, 1, 0, 0, 0, 0, 0, 0];
    assert_eq!(usage_percent(&d), Some(6667));
}

#[test]
fn end_to_end_two_snapshots() {
    let mut w = HistoryWindow::new(false, 10);
    w.append(snap(1, vec![100, 0, 50, 800, 0, 0, 0, 0, 0, 0], vec![]));
    w.append(snap(2, vec![110, 0, 60, 850, 0, 0, 0, 0, 0, 0], vec![]));
    let d = w.compute_differences().unwrap();
    assert_eq!(d.cpu, vec![10, 0, 10, 50, 0, 0, 0, 0, 0, 0]);
    assert_eq!(d.pairs, 1);
    assert!(!d.averaged);
    assert_eq!(usage_percent(&d.cpu), Some(2857));
}

#[test]
fn single_snapshot_is_not_enough() {
    let mut w = HistoryWindow::new(false, 10);
    assert!(matches!(w.compute_differences(), Err(AggregateError::NotEnoughData)));
    w.append(snap(1, vec![1; 10], vec![]));
    assert!(matches!(w.compute_differences(), Err(AggregateError::NotEnoughData)));
}

#[test]
fn window_keeps_capacity_fifo() {
    let mut w = HistoryWindow::new(true, 3);
    for t in 0..10u64 {
        w.append(snap(t, vec![t; 10], vec![]));
        assert!(w.len() <= 4);
    }
    assert_eq!(w.len(), 4);
    assert_eq!(w.get(0).timestamp, 6);
    assert_eq!(w.get(3).timestamp, 9);
    let mut inst = HistoryWindow::new(false, 3);
    for t in 0..5u64 {
        inst.append(snap(t, vec![t; 10], vec![]));
    }
    assert_eq!(inst.len(), 2);
    assert_eq!(inst.get(0).timestamp, 3);
}

#[test]
fn average_over_full_window() {
    let mut w = HistoryWindow::new(true, 3);
    let cpu = [0u64, 10, 25, 31];
    for (t, c) in cpu.iter().enumerate() {
        w.append(snap(t as u64, vec![*c; 10], vec![vec![*c * 2; 10], vec![*c; 10]]));
    }
    let d = w.compute_differences().unwrap();
    assert_eq!(d.pairs, 3);
    assert!(d.averaged);
    assert_eq!(d.cpu, vec![10; 10]); // 31 / 3 truncated
    assert_eq!(d.cores, vec![vec![20; 10], vec![10; 10]]); // 62 / 3 truncated
}

#[test]
fn average_ignores_evicted_snapshots() {
    let mut a = HistoryWindow::new(true, 2);
    let mut b = HistoryWindow::new(true, 2);
    a.append(snap(0, vec![1000; 10], vec![]));
    b.append(snap(0, vec![7; 10], vec![]));
    for t in 1..4u64 {
        a.append(snap(t, vec![100 * t; 10], vec![]));
        b.append(snap(t, vec![100 * t; 10], vec![]));
    }
    let da = a.compute_differences().unwrap();
    let db = b.compute_differences().unwrap();
    assert_eq!(da.cpu, db.cpu);
    assert_eq!(da.cpu, vec![100; 10]);
}

#[test]
fn average_with_fewer_snapshots_than_requested() {
    let mut w = HistoryWindow::new(true, 10);
    w.append(snap(0, vec![0; 10], vec![]));
    w.append(snap(1, vec![5; 10], vec![]));
    w.append(snap(2, vec![8; 10], vec![]));
    let d = w.compute_differences().unwrap();
    assert_eq!(d.pairs, 2);
    assert_eq!(d.cpu, vec![4; 10]);
}

#[test]
fn average_truncates_toward_zero() {
    let mut w = HistoryWindow::new(true, 2);
    w.append(snap(0, vec![10; 10], vec![]));
    w.append(snap(1, vec![8; 10], vec![]));
    w.append(snap(2, vec![7; 10], vec![]));
    let d = w.compute_differences().unwrap();
    assert_eq!(d.cpu, vec![-1; 10]); // -3 / 2
}

#[test]
fn shape_change_is_reported() {
    let mut w = HistoryWindow::new(false, 10);
    w.append(snap(0, vec![0; 10], vec![vec![0; 10]]));
    w.append(snap(1, vec![1; 10], vec![vec![0; 10], vec![0; 10]]));
    assert!(matches!(w.compute_differences(), Err(AggregateError::ShapeMismatch)));
}

#[test]
fn out_of_range_is_reported() {
    let mut w = HistoryWindow::new(false, 10);
    w.append(snap(0, vec![0; 10], vec![]));
    w.append(snap(1, vec![u64::MAX; 10], vec![]));
    assert!(matches!(w.compute_differences(), Err(AggregateError::OutOfRange)));
}

const STAT: &str = "cpu  100 0 50 800 0 0 0 0 0 0\n\
cpu0 60 0 30 400 0 0 0 0 0 0\n\
cpu1 40 0 20 400 0 0 0 0 0 0\n\
intr 12345 1 2\n\
ctxt 999\n";

#[test]
fn parses_counter_table() {
    let (cpu, cores) = get_cpu_times(STAT.as_bytes()).unwrap();
    assert_eq!(cpu, vec![100, 0, 50, 800, 0, 0, 0, 0, 0, 0]);
    assert_eq!(cores.len(), 2);
    assert_eq!(cores[1], vec![40, 0, 20, 400, 0, 0, 0, 0, 0, 0]);
}

#[test]
fn parse_keeps_first_ten_fields() {
    let v = parse_counter_line(b"cpu\t1 2 3 4 5 6 7 8 9 10 11 12").unwrap();
    assert_eq!(v, vec![1, 2, 3, 4, 5, 6, 7, 8, 9, 10]);
}

#[test]
fn parse_rejects_short_line() {
    assert_eq!(parse_counter_line(b"cpu 1 2 3"), Err(StatError::MissingFields));
    assert_eq!(get_cpu_times(b""), Err(StatError::MissingFields));
}

#[test]
fn parse_rejects_bad_number() {
    assert_eq!(parse_counter_line(b"cpu 1 2 x 4 5 6 7 8 9 10"), Err(StatError::BadNumber));
    assert_eq!(
        get_cpu_times(b"cpu 1 2 3 4 5 6 7 8 9 10\ncpu0 1 2 3 4 5 6 7 8 9 -1\n"),
        Err(StatError::BadNumber)
    );
}

#[test]
fn parse_number_limits() {
    assert_eq!(parse_number(b"18446744073709551615"), Some(u64::MAX));
    assert_eq!(parse_number(b"18446744073709551616"), None);
    assert_eq!(parse_number(b""), None);
    assert_eq!(parse_number(b"1700000000"), Some(1700000000));
}

fn diffs(cpu: Vec<i64>, cores: Vec<Vec<i64>>) -> Differences {
    Differences { cpu, cores, pairs: 1, averaged: true }
}

fn log_array(bytes: &[u8]) -> Vec<serde_json::Value> {
    let v: serde_json::Value = serde_json::from_slice(bytes).unwrap();
    v.as_array().unwrap().clone()
}

#[test]
fn append_frames_records() {
    let first = append_record(b"", b"{\"a\":1}");
    assert_eq!(first, b"[{\"a\":1}\n]".to_vec());
    let second = append_record(&first, b"{\"b\":2}");
    assert_eq!(second, b"[{\"a\":1}\n,{\"b\":2}\n]".to_vec());
}

#[test]
fn log_round_trip() {
    let one = store_differences(b"", 1700000000, &diffs(vec![1, 2, 3, 4, 5, 6, 7, 8, 9, 10], vec![vec![-1; 10]]));
    let arr = log_array(&one);
    assert_eq!(arr.len(), 1);
    let two = store_differences(&one, 1700000001, &diffs(vec![0; 10], vec![]));
    let arr = log_array(&two);
    assert_eq!(arr.len(), 2);
    let rec = &arr[0]["1700000000"];
    assert_eq!(rec["cpu"][9].as_i64(), Some(10));
    assert_eq!(rec["cores"][0][0].as_i64(), Some(-1));
    assert!(arr[1]["1700000001"].is_object());
    assert_eq!(arr[1]["1700000001"]["cores"].as_array().unwrap().len(), 0);
}

fn record(key: &str) -> LogRecord {
    LogRecord { key: key.to_string(), cpu: vec![0; 10], cores: vec![] }
}

#[test]
fn find_record_by_exact_key() {
    let records = vec![record("1700000000")];
    assert_eq!(find_record(&records, &"1700000000".to_string()), Some(0));
    assert_eq!(find_record(&records, &"1699999999".to_string()), None);
    let dup = vec![record("5"), record("1700000000"), record("1700000000")];
    assert_eq!(find_record(&dup, &"1700000000".to_string()), Some(1));
    assert_eq!(find_record(&dup, &"05".to_string()), None);
}

#[test]
fn formats_integers() {
    assert_eq!(cpu_monitor::render::format_integer(0), b"0".to_vec());
    assert_eq!(cpu_monitor::render::format_integer(1234), b"1234".to_vec());
    assert_eq!(cpu_monitor::render::format_integer(-50), b"-50".to_vec());
    assert_eq!(cpu_monitor::render::format_integer(i128::MIN), i128::MIN.to_string().into_bytes());
}

#[test]
fn formats_percentages() {
    assert_eq!(cpu_monitor::render::format_hundredths(6000), b"60.00".to_vec());
    assert_eq!(cpu_monitor::render::format_hundredths(2857), b"28.57".to_vec());
    assert_eq!(cpu_monitor::render::format_hundredths(5), b"0.05".to_vec());
    assert_eq!(cpu_monitor::render::format_hundredths(-125), b"-1.25".to_vec());
}

#[test]
fn renders_difference_rows() {
    let d = diffs(vec![10, 0, 10, 50, 0, 0, 0, 0, 0, 0], vec![vec![-3, 1, 0, 0, 0, 0, 0, 0, 0, 0]]);
    let text = String::from_utf8(cpu_monitor::render::render_differences(&d)).unwrap();
    let expected = format!(
        "{:<5}{:>10}{:>10}{:>10}{:>10}{}\n{:<5}{:>10}{:>10}{}\n",
        "cpu", 10, 0, 10, 50, "         0".repeat(6),
        "cpu0", -3, 1, "         0".repeat(8)
    );
    assert_eq!(text, expected);
}

#[test]
fn renders_usage_rows() {
    let d = diffs(vec![10, 0, 10, 50, 0, 0, 0, 0, 0, 0], vec![vec![0; 10], vec![1, 2]]);
    let text = String::from_utf8(cpu_monitor::render::render_usage(&d)).unwrap();
    assert_eq!(text, "avg        28.57%\ncpu0          n/a\ncpu1          n/a\n");
}

#[test]
fn renders_stored_record() {
    let r = LogRecord { key: "1700000000".to_string(), cpu: vec![1, -2], cores: vec![vec![30]] };
    let text = String::from_utf8(cpu_monitor::render::render_record(&r)).unwrap();
    assert_eq!(text, "cpu        1       -2\ncpu0        30\n");
}

#[test]
fn heading_wraps_time_text() {
    assert_eq!(cpu_monitor::render::heading_of(b"2023-11-14 22:13:20"), b"\n2023-11-14 22:13:20:\n".to_vec());
    assert!(cpu_monitor::render::record_heading(b"17x").is_none());
    assert!(cpu_monitor::render::record_heading(b"18446744073709551615").is_none());
    let h = cpu_monitor::render::record_heading(b"1700000000").unwrap();
    assert_eq!(h.len(), 22);
    assert_eq!(h[0], b'\n');
}
