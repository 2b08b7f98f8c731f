//! Sizes, rates, statistics and progress as text.

use seer::double::Double;
use seer::filter::Filter;
use seer::format::{format_byte_rate, format_bytes, format_fetch_stats, progress_bar_inner};
use seer::long_op::{
    format_long_op_progress, LongOp, SearchOp, SeekOp, SummaryOp, TabIdx,
};
use seer::pattern::compile_pattern;
use seer::position::ByteLen;
use seer::rows::{summary_placeholder_rows, ParseStats};
use seer::search::{SearchAnchor, SearchDirection};
use std::time::Duration;

#[test]
fn format_bytes_picks_prefix_at_1024_boundaries() {
    assert_eq!(format_bytes(0), "0 B");
    assert_eq!(format_bytes(1023), "1023 B");
    assert_eq!(format_bytes(1024), "1.0 KiB");
    // 1.5 KiB
    assert_eq!(format_bytes(1024 + 512), "1.5 KiB");
    assert_eq!(format_bytes(1024 * 1024), "1.0 MiB");
    assert_eq!(format_bytes(1024 * 1024 * 1024), "1.0 GiB");
    assert_eq!(format_bytes(2013), "2.0 KiB");
}

#[test]
fn format_bytes_rounds_as_doubles_do() {
    let mut n: u64 = 1;
    for step in 0..4000u64 {
        n = n.wrapping_mul(6364136223846793005).wrapping_add(step * 2 + 1);
        for bytes in [n, n >> 8, n >> 20, n >> 33, n >> 44, n >> 53] {
            let b = bytes as f64;
            let expected = if b >= 1024.0 * 1024.0 * 1024.0 {
                format!("{:.1} GiB", b / (1024.0 * 1024.0 * 1024.0))
            } else if b >= 1024.0 * 1024.0 {
                format!("{:.1} MiB", b / (1024.0 * 1024.0))
            } else if b >= 1024.0 {
                format!("{:.1} KiB", b / 1024.0)
            } else {
                format!("{bytes} B")
            };
            assert_eq!(format_bytes(bytes), expected, "{bytes}");
        }
    }
    assert_eq!(format_bytes(1024 + 51), "1.0 KiB");
    assert_eq!(format_bytes(1024 + 52), "1.1 KiB");
    assert_eq!(format_bytes(u64::MAX), "17179869184.0 GiB");
}

#[test]
fn format_byte_rate_picks_prefix_at_1024_boundaries() {
    let second = 1_000_000_000;
    assert_eq!(format_byte_rate(0, second), "0 B/sec");
    assert_eq!(format_byte_rate(132, second), "132 B/sec");
    assert_eq!(format_byte_rate(1024, second), "1.0 KiB/sec");
    assert_eq!(format_byte_rate(1024 * 1024, second), "1.0 MiB/sec");
    assert_eq!(format_byte_rate(3 * 1024 * 1024 * 1024, second), "3.0 GiB/sec");
    assert_eq!(format_byte_rate(1000, 2 * second), "500 B/sec");
    assert_eq!(format_byte_rate(3417, 10 * second), "341 B/sec");
    assert_eq!(format_byte_rate(10_239, 10 * second), "1023 B/sec");
}

#[test]
fn format_fetch_stats_includes_records_bytes_time_and_rates() {
    let stats = ParseStats {
        records: 1023,
        walked_bytes: ByteLen(2013),
        elapsed_nanos: 15_231_000_000,
    };
    let s = format_fetch_stats(&stats);
    assert!(s.contains("1023 records"), "{s}");
    assert!(s.contains("2.0 KiB"), "{s}");
    assert!(s.contains("15.231s"), "{s}");
    assert!(s.contains("fetched"), "{s}");
    assert!(s.contains("records/sec"), "{s}");
    assert!(s.contains("B/sec") || s.contains("KiB/sec"), "{s}");
}

#[test]
fn format_fetch_stats_drops_rates_when_records_zero() {
    let stats = ParseStats { records: 0, walked_bytes: ByteLen::zero(), elapsed_nanos: 0 };
    let s = format_fetch_stats(&stats);
    assert!(s.contains("0 records"), "{s}");
    assert!(s.contains("fetched"), "{s}");
    assert!(!s.contains("records/sec"), "{s}");
}

#[test]
fn progress_bar_inner_one_cell_when_pct_positive_but_low() {
    // half a percent
    let s = progress_bar_inner(5, 1000, 100);
    assert!(s.starts_with('\u{2588}'), "got: {s:?}");
    assert_eq!(s.chars().count(), 100);
}

#[test]
fn progress_bar_inner_full_at_100() {
    let s = progress_bar_inner(100, 100, 10);
    assert_eq!(s, "\u{2588}".repeat(10));
}

#[test]
fn progress_bar_inner_empty_at_zero() {
    let s = progress_bar_inner(0, 100, 10);
    assert_eq!(s, " ".repeat(10));
}

fn summary_op(total: u64, read: u64, records: u64) -> LongOp {
    let mut s = SummaryOp::new(TabIdx(0), Filter::default(), ByteLen(total));
    s.bytes_read = ByteLen(read);
    s.records = records;
    LongOp::BuildSummary(s)
}

#[test]
fn format_long_op_progress_includes_label_pct_bytes_records() {
    let out = format_long_op_progress(&summary_op(1024, 256, 42), 80);
    assert!(out.contains("Computing summary"), "{out}");
    assert!(out.contains("25.0%"), "{out}");
    assert!(out.contains("256 B"), "{out}");
    assert!(out.contains("1.0 KiB"), "{out}");
    assert!(out.contains("42 records"), "{out}");
    assert!(out.contains('['), "{out}");
    assert!(out.contains(']'), "{out}");
}

#[test]
fn format_long_op_progress_drops_bar_at_narrow_widths() {
    let out = format_long_op_progress(&summary_op(1024, 256, 42), 30);
    assert!(out.contains("25.0%"), "{out}");
    assert!(out.contains("42 records"), "{out}");
    assert!(!out.contains('['), "expected no bar; got: {out}");
}

#[test]
fn format_long_op_progress_caps_at_100() {
    let out = format_long_op_progress(&summary_op(100, 200, 1), 80);
    assert!(out.contains("100.0%"), "{out}");
}

#[test]
fn long_ops_report_what_they_did_since_their_start() {
    let mut search = SearchOp::new(
        TabIdx(1),
        compile_pattern("x").unwrap(),
        SearchDirection::Forward,
        SearchAnchor::Skip,
        ByteLen(100),
        10,
        ByteLen(1000),
    );
    search.note(ByteLen(350), 25);
    let search = LongOp::Search(search);
    assert_eq!(search.bytes_done(), ByteLen(250));
    assert_eq!(search.total_bytes(), ByteLen(1000));
    assert_eq!(search.records(), 15);
    assert!(search.targets_tab(TabIdx(1)));
    assert!(!search.targets_tab(TabIdx(0)));

    let mut seek = SeekOp::new(
        TabIdx(0),
        "Seeking to end".to_string(),
        ByteLen(0),
        0,
        ByteLen(10),
    );
    seek.note(ByteLen(5), 1);
    let seek = LongOp::Seek(seek);
    assert_eq!(seek.label(), "Seeking to end");
    assert!(format_long_op_progress(&seek, 80).contains("50.0%"));
}

#[test]
fn tab_numbers_count_down_to_zero() {
    assert_eq!(TabIdx(3).prev().get(), 2);
}

#[test]
fn summary_placeholder_says_that_it_is_being_computed() {
    let rows = summary_placeholder_rows();
    assert_eq!(rows.formatted, vec!["Computing summary...".to_string()]);
    assert!(rows.events.is_empty());
}

/// Numbers of all sizes, each pair once.
fn pairs() -> Vec<(u64, u64)> {
    let mut out = vec![(1, 3), (115, 200), (29, 100), (u64::MAX, 1), (1, u64::MAX)];
    let mut n: u64 = 7;
    for step in 0..1500u64 {
        n = n.wrapping_mul(6364136223846793005).wrapping_add(step * 2 + 1);
        let m = n.wrapping_mul(2862933555777941757).wrapping_add(3037000493);
        for (a, b) in [(0, 0), (3, 11), (12, 0), (30, 31), (44, 40), (53, 50), (56, 56)] {
            out.push((n >> a, m >> b));
        }
    }
    out
}

fn value(x: Double) -> f64 {
    x.mantissa as f64 * 2f64.powi(x.exponent)
}

#[test]
fn doubles_are_those_of_the_machine() {
    for (a, b) in pairs() {
        let (x, y) = (Double::of(a), Double::of(b));
        assert_eq!(value(x), a as f64, "{a}");
        if b > 0 {
            assert_eq!(value(x.over(y)), a as f64 / b as f64, "{a} over {b}");
            assert_eq!(
                value(x.over(y).times(Double::of(100))),
                (a as f64 / b as f64) * 100.0,
                "{a} over {b}"
            );
        }
        assert_eq!(value(x.times(y)), a as f64 * b as f64, "{a} times {b}");
        if a == 0 || b == 0 || x.exponent.abs_diff(y.exponent) <= 65 {
            assert_eq!(value(x.plus(y)), a as f64 + b as f64, "{a} plus {b}");
        }
        assert_eq!(x.floor(), a as f64 as u128, "{a}");
        assert_eq!(x.below(1000), (a as f64) < 1000.0, "{a}");
        assert_eq!(x.above(1000), a as f64 > 1000.0, "{a}");
    }
}

fn machine_rate(rate: f64) -> String {
    if rate < 1024.0 {
        format!("{:.0} B/sec", rate.floor())
    } else if rate < 1024.0 * 1024.0 {
        format!("{:.1} KiB/sec", rate / 1024.0)
    } else if rate < 1024.0 * 1024.0 * 1024.0 {
        format!("{:.1} MiB/sec", rate / (1024.0 * 1024.0))
    } else {
        format!("{:.1} GiB/sec", rate / (1024.0 * 1024.0 * 1024.0))
    }
}

#[test]
fn fetch_statistics_round_as_doubles_do() {
    for (a, nanos) in pairs() {
        let stats =
            ParseStats { records: a >> 7, walked_bytes: ByteLen(a), elapsed_nanos: nanos };
        let secs = Duration::from_nanos(nanos).as_secs_f64();
        let mut expected =
            format!("{} records ({}) fetched in {secs:.3}s", a >> 7, format_bytes(a));
        if a >> 7 > 0 && nanos > 0 {
            expected.push_str(&format!(
                " ({:.1} records/sec, {})",
                (a >> 7) as f64 / secs,
                machine_rate(a as f64 / secs)
            ));
        }
        assert_eq!(format_fetch_stats(&stats), expected);
    }
    let half = ParseStats { records: 0, walked_bytes: ByteLen(0), elapsed_nanos: 500_000 };
    assert_eq!(format_fetch_stats(&half), "0 records (0 B) fetched in 0.001s");
}

#[test]
fn progress_rounds_as_doubles_do() {
    for (part, whole) in pairs() {
        let pct = if whole == 0 {
            100.0
        } else {
            ((part as f64 / whole as f64) * 100.0).min(100.0)
        };
        for width in [0usize, 1, 7, 100, 133] {
            let mut filled = ((pct / 100.0) * width as f64) as usize;
            if pct > 0.0 && filled == 0 {
                filled = 1;
            }
            let filled = filled.min(width);
            let expected = "\u{2588}".repeat(filled) + &" ".repeat(width - filled);
            assert_eq!(progress_bar_inner(part, whole, width), expected, "{part} of {whole}");
        }
        let line = format_long_op_progress(&summary_op(whole, part, 3), 20);
        let expected = format!(
            "Computing summary: {pct:>5.1}%   {} / {}   3 records",
            format_bytes(part),
            format_bytes(whole)
        );
        assert_eq!(line, expected);
    }
    // the double nearest to 29 of 100 lies just below it
    assert_eq!(progress_bar_inner(29, 100, 100).trim_end().chars().count(), 28);
}
