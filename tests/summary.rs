use criterion_plot::{Color, Scale};
use criterion_summary::bytes::{format_bytes, int_to_text};
use criterion_summary::comparison::{
    curve_entries, line_series, sample_sum, sort_points, Curve, Entry, PlotError,
};
use criterion_summary::grouping::group_runs;
use criterion_summary::id::{parse_count, BenchmarkId};
use criterion_summary::layout::{
    band_half_width, comparison_title, gnuplot_escape, input_label, lane_center, lane_order, max_mean,
    scale_points, tic_labels, value_label, violin_height, violin_title, ValueType,
};
use criterion_summary::ratio::Ratio;
use criterion_summary::speedup::{speedup_points, speedup_series};
use criterion_summary::style::{color_for, AxisScale};

fn id(function: Option<&str>, value: Option<&str>, throughput: Option<u64>) -> BenchmarkId {
    BenchmarkId {
        function_id: function.map(|s| s.to_string()),
        value_str: value.map(|s| s.to_string()),
        throughput,
        title: format!("{:?}/{:?}", function, value),
    }
}

fn curve(function: &str, x: &str, sample: Vec<u64>) -> Curve {
    Curve { id: id(Some(function), Some(x), None), sample }
}

fn rgb(c: Color) -> (u8, u8, u8) {
    match c {
        Color::Rgb(r, g, b) => (r, g, b),
        _ => panic!("palette colours are RGB"),
    }
}

fn value(r: Ratio) -> f64 {
    r.num as f64 / r.den as f64
}

#[test]
fn bytes_examples() {
    assert_eq!(format_bytes(512), "512b");
    assert_eq!(format_bytes(2048), "2Kb");
    assert_eq!(format_bytes(5 * 1024 * 1024), "5Mb");
    assert_eq!(format_bytes(3 * 1024 * 1024 * 1024), "3Gb");
}

#[test]
fn bytes_edges() {
    assert_eq!(format_bytes(0), "0b");
    assert_eq!(format_bytes(1023), "1023b");
    assert_eq!(format_bytes(1024), "1Kb");
    assert_eq!(format_bytes(-5), "-5b");
    assert_eq!(format_bytes(1536), "2Kb");
    assert_eq!(format_bytes(1024 + 511), "1Kb");
    assert_eq!(format_bytes(2560), "2Kb");
    assert_eq!(format_bytes(1024 * 1024 - 1), "1024Kb");
    assert_eq!(format_bytes(i64::MAX), "8589934592Gb");
}

#[test]
fn integer_text() {
    assert_eq!(int_to_text(0), "0");
    assert_eq!(int_to_text(907), "907");
    assert_eq!(int_to_text(i64::MIN), "-9223372036854775808");
}

#[test]
fn tick_labels_per_position() {
    let l = tic_labels(&vec![1, 4096, 1 << 20]);
    assert_eq!(l, vec!["1b".to_string(), "4Kb".to_string(), "1Mb".to_string()]);
}

#[test]
fn grouping_is_by_runs() {
    let keys: Vec<Option<String>> = ["A", "A", "B", "B", "A"]
        .iter()
        .map(|s| Some(s.to_string()))
        .collect();
    assert_eq!(group_runs(&keys), vec![(0, 2), (2, 4), (4, 5)]);
}

#[test]
fn grouping_none_and_empty() {
    assert_eq!(group_runs(&vec![]), vec![]);
    let keys = vec![None, None, Some("f".to_string()), None];
    assert_eq!(group_runs(&keys), vec![(0, 2), (2, 3), (3, 4)]);
}

#[test]
fn series_sorted_by_parameter() {
    let curves = vec![
        curve("f", "30", vec![3, 3]),
        curve("f", "10", vec![1, 1]),
        curve("f", "20", vec![2, 4]),
        curve("g", "5", vec![7]),
    ];
    let ss = line_series(&curves).unwrap();
    assert_eq!(ss.len(), 2);
    assert_eq!(ss[0].label.as_deref(), Some("f"));
    assert_eq!((ss[0].start, ss[0].end), (0, 3));
    let xs: Vec<u64> = ss[0].points.iter().map(|p| p.0).collect();
    assert_eq!(xs, vec![10, 20, 30]);
    assert_eq!(ss[0].points[1].1, Ratio { num: 6, den: 2 });
    assert_eq!(ss[1].label.as_deref(), Some("g"));
    assert_eq!(ss[1].points, vec![(5, Ratio { num: 7, den: 1 })]);
    assert_eq!(rgb(ss[1].color), (46, 139, 87));
}

#[test]
fn sort_keeps_equal_parameters_in_order() {
    let pts = vec![
        (3, Ratio { num: 1, den: 1 }),
        (1, Ratio { num: 2, den: 1 }),
        (3, Ratio { num: 3, den: 1 }),
        (1, Ratio { num: 4, den: 1 }),
    ];
    let s = sort_points(pts);
    let xs: Vec<u64> = s.iter().map(|p| p.0).collect();
    assert_eq!(xs, vec![1, 1, 3, 3]);
    assert_eq!(s[0].1.num, 2);
    assert_eq!(s[1].1.num, 4);
}

#[test]
fn entries_errors() {
    let curves = vec![curve("f", "1", vec![1]), curve("f", "abc", vec![1])];
    assert_eq!(curve_entries(&curves), Err(PlotError::NotNumeric { index: 1 }));
    let curves = vec![curve("f", "1", vec![u64::MAX, 1])];
    assert_eq!(curve_entries(&curves), Err(PlotError::SumOverflow { index: 0 }));
    assert!(line_series(&curves).is_err());
}

#[test]
fn entries_use_throughput_first() {
    let curves = vec![Curve { id: id(Some("f"), Some("x"), Some(4096)), sample: vec![2, 6] }];
    assert_eq!(curve_entries(&curves), Ok(vec![Entry { x: 4096, sum: 8, count: 2 }]));
}

#[test]
fn parameter_parsing() {
    assert_eq!(parse_count("0"), Some(0));
    assert_eq!(parse_count("1024"), Some(1024));
    assert_eq!(parse_count("18446744073709551615"), Some(u64::MAX));
    assert_eq!(parse_count("18446744073709551616"), None);
    assert_eq!(parse_count(""), None);
    assert_eq!(parse_count("1.5"), None);
    assert_eq!(id(None, Some("77"), None).as_number(), Some(77));
    assert_eq!(id(None, None, None).as_number(), None);
}

#[test]
fn sums() {
    assert_eq!(sample_sum(&vec![]), Some(0));
    assert_eq!(sample_sum(&vec![1, 2, 3]), Some(6));
    assert_eq!(sample_sum(&vec![u64::MAX, 0]), Some(u64::MAX));
    assert_eq!(sample_sum(&vec![u64::MAX, 1]), None);
}

#[test]
fn speedup_is_relative_to_baseline() {
    let base = "base".to_string();
    let baseline_first = vec![curve("base", "8", vec![2, 2]), curve("new", "8", vec![4, 4])];
    let r = speedup_series(&baseline_first, &base).unwrap();
    assert_eq!(r.len(), 1);
    assert_eq!(r[0].0, 8);
    assert_eq!(value(r[0].1), 0.5);
    let other_first = vec![curve("new", "8", vec![4, 4]), curve("base", "8", vec![2, 2])];
    let r = speedup_series(&other_first, &base).unwrap();
    assert_eq!(value(r[0].1), 0.5);
}

#[test]
fn speedup_ordered_by_parameter() {
    let base = "base".to_string();
    let curves = vec![
        curve("base", "20", vec![6]),
        curve("base", "10", vec![3]),
        curve("new", "20", vec![2]),
        curve("new", "10", vec![6]),
    ];
    let r = speedup_series(&curves, &base).unwrap();
    assert_eq!(r.len(), 2);
    assert_eq!(r[0].0, 10);
    assert_eq!(value(r[0].1), 0.5);
    assert_eq!(r[1].0, 20);
    assert_eq!(value(r[1].1), 3.0);
}

#[test]
fn speedup_needs_a_baseline_pair() {
    let base = "base".to_string();
    let single = vec![curve("base", "10", vec![3]), curve("new", "20", vec![2])];
    assert!(matches!(
        speedup_series(&single, &base),
        Err(PlotError::Unpaired { x: 10 }) | Err(PlotError::Unpaired { x: 20 })
    ));
    let no_base = vec![curve("a", "10", vec![3]), curve("b", "10", vec![2])];
    assert_eq!(speedup_series(&no_base, &base), Err(PlotError::Unpaired { x: 10 }));
    let two_base = vec![curve("base", "10", vec![3]), curve("base", "10", vec![2])];
    assert_eq!(speedup_series(&two_base, &base), Err(PlotError::Unpaired { x: 10 }));
}

#[test]
fn speedup_needs_function_ids() {
    let base = "base".to_string();
    let curves = vec![
        curve("base", "10", vec![3]),
        Curve { id: id(None, Some("10"), None), sample: vec![2] },
    ];
    assert_eq!(speedup_series(&curves, &base), Err(PlotError::MissingFunction { index: 1 }));
}

#[test]
fn empty_curve_sets_fail() {
    let none: Vec<Curve> = vec![];
    assert_eq!(curve_entries(&none), Err(PlotError::EmptyCurves));
    assert!(matches!(line_series(&none), Err(PlotError::EmptyCurves)));
    assert_eq!(speedup_series(&none, &"base".to_string()), Err(PlotError::EmptyCurves));
}

#[test]
fn speedup_three_at_one_parameter() {
    let e = Entry { x: 4, sum: 1, count: 1 };
    let r = speedup_points(&vec![e, e, e], &vec![true, false, false]);
    assert_eq!(r, Err(PlotError::AmbiguousSpeedup { x: 4 }));
    assert_eq!(speedup_points(&vec![], &vec![]), Ok(vec![]));
}

#[test]
fn colors_cycle() {
    let groups: Vec<(u8, u8, u8)> = (0..11).map(|i| rgb(color_for(i))).collect();
    assert_eq!(groups[9], groups[0]);
    assert_eq!(groups[10], groups[1]);
    for i in 0..9 {
        for j in 0..i {
            assert_ne!(groups[i], groups[j]);
        }
    }
    assert_eq!(groups[0], (178, 34, 34));
    assert_eq!(groups[8], (0, 50, 255));
}

#[test]
fn axis_scales() {
    assert!(matches!(AxisScale::Linear.to_gnuplot(), Scale::Linear));
    assert!(matches!(AxisScale::Logarithmic.to_gnuplot(), Scale::Logarithmic));
}

#[test]
fn unit_scaling_round_trip() {
    let pts = vec![(1, Ratio { num: 2500, den: 1 }), (2, Ratio { num: 7, den: 3 })];
    let ms = scale_points(&pts, Ratio { num: 1, den: 1000 }).unwrap();
    assert_eq!(ms[0], (1, Ratio { num: 2500, den: 1000 }));
    assert_eq!(value(ms[0].1), 2.5);
    let back = scale_points(&ms, Ratio { num: 1000, den: 1 }).unwrap();
    for (a, b) in back.iter().zip(pts.iter()) {
        assert_eq!(a.0, b.0);
        assert_eq!(a.1.num * b.1.den, b.1.num * a.1.den);
    }
    let big = vec![(1, Ratio { num: u128::MAX, den: 1 })];
    assert_eq!(scale_points(&big, Ratio { num: 2, den: 1 }), None);
}

#[test]
fn largest_mean() {
    let es = vec![
        Entry { x: 1, sum: 10, count: 4 },
        Entry { x: 2, sum: 0, count: 0 },
        Entry { x: 3, sum: 11, count: 4 },
        Entry { x: 4, sum: 5, count: 2 },
    ];
    assert_eq!(max_mean(&es), Some(Ratio { num: 11, den: 4 }));
    assert_eq!(max_mean(&vec![Entry { x: 1, sum: 0, count: 0 }]), None);
    assert_eq!(max_mean(&vec![]), None);
}

#[test]
fn labels() {
    let empty = String::new();
    assert_eq!(input_label(&empty, ValueType::Bytes), "Input size (Bytes)");
    assert_eq!(input_label(&empty, ValueType::Elements), "Input size (Elements)");
    assert_eq!(input_label(&empty, ValueType::Value), "Input");
    assert_eq!(input_label(&"n".to_string(), ValueType::Bytes), "n");
    assert_eq!(comparison_title(&"fib".to_string(), &empty), "fib: Comparison");
    assert_eq!(comparison_title(&"fib".to_string(), &"Mine".to_string()), "Mine");
    assert_eq!(violin_title(&"fib".to_string()), "fib: Violin plot");
    assert_eq!(value_label(true, &"ms".to_string()), "Speedup");
    assert_eq!(value_label(false, &"ms".to_string()), "Average time (ms)");
}

#[test]
fn violin_lanes() {
    assert_eq!(violin_height(0), 200);
    assert_eq!(violin_height(4), 300);
    assert_eq!(lane_order(3), vec![2, 1, 0]);
    assert!(lane_order(0).is_empty());
    assert_eq!(value(lane_center(0)), 0.5);
    assert_eq!(value(lane_center(3)), 3.5);
    assert_eq!(value(band_half_width()), 0.45);
}

#[test]
fn escaping() {
    assert_eq!(gnuplot_escape("plain"), "plain");
    assert_eq!(gnuplot_escape("my_bench"), "my\\_bench");
    assert_eq!(gnuplot_escape("it's"), "it''s");
    assert_eq!(gnuplot_escape(""), "");
    assert_eq!(gnuplot_escape("_'é"), "\\_''é");
}
