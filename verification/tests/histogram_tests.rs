use histo::buckets::{bucket_index, bucket_width, compute_counts};
use histo::histogram::scale_unit;
use histo::Histogram;

fn ingest(values: &[u64], buckets: usize) -> Histogram {
    let mut h = Histogram::with_buckets(buckets);
    for v in values {
        h.add(*v);
    }
    h
}

fn stats_text(h: &Histogram) -> (String, String, String) {
    let count = h.count();
    if count == 0 {
        return (String::new(), String::new(), String::new());
    }
    let mean = h.sum() as f64 / count as f64;
    let variance = h.sum_squares() as f64 / count as f64 - mean * mean;
    let std_dev = variance.sqrt();
    (
        format!("{}", mean),
        format!("{}", std_dev),
        format!("{}", variance),
    )
}

#[test]
fn count_equals_number_of_adds() {
    let mut h = Histogram::with_buckets(10);
    assert_eq!(h.count(), 0);
    for i in 0..137u64 {
        h.add(i * 3);
        assert_eq!(h.count(), (i + 1) as usize);
    }
}

#[test]
fn min_and_max_track_true_extremes() {
    let h = ingest(&[9, 2, 2, 77, 31, 5], 4);
    assert_eq!(h.min(), Some(2));
    assert_eq!(h.max(), Some(77));
}

#[test]
fn min_and_max_absent_when_empty() {
    let h = Histogram::with_buckets(3);
    assert_eq!(h.min(), None);
    assert_eq!(h.max(), None);
}

#[test]
fn mean_matches_sum_over_count() {
    let values = [1u64, 2, 3, 4, 5, 100];
    let h = ingest(&values, 10);
    assert_eq!(h.sum(), 115);
    let mean = h.sum() as f64 / h.count() as f64;
    let expected: f64 = values.iter().sum::<u64>() as f64 / values.len() as f64;
    assert!((mean - expected).abs() < 1e-9);
}

#[test]
fn variance_is_non_negative() {
    for values in [
        vec![5u64],
        vec![0, 0, 0],
        vec![1, 2, 3, 4, 5],
        vec![1_000_000_000, 1_000_000_001, 1_000_000_002],
        vec![7; 1000],
    ] {
        let h = ingest(&values, 10);
        let mean = h.sum() as f64 / h.count() as f64;
        let variance = h.sum_squares() as f64 / h.count() as f64 - mean * mean;
        assert!(variance >= -1e-6, "variance {} for {:?}", variance, values);
    }
}

#[test]
fn sum_squares_is_exact() {
    let h = ingest(&[1, 2, 3], 10);
    assert_eq!(h.sum_squares(), 14);
}

#[test]
fn bucket_counts_total_the_sample_count() {
    for values in [
        vec![1u64, 1, 1, 4, 38, 38, 38, 39, 50],
        vec![0, u64::MAX],
        vec![10, 20, 30, 40, 50, 60, 70, 80, 90, 100],
        vec![3; 17],
    ] {
        let h = ingest(&values, 7);
        let counts = h.bucket_counts();
        assert_eq!(counts.len(), 7);
        assert_eq!(counts.iter().sum::<usize>(), values.len());
    }
}

#[test]
fn single_value_dataset_fills_exactly_one_bucket() {
    let h = ingest(&[5, 5, 5, 5], 10);
    let counts = h.bucket_counts();
    assert_eq!(counts.len(), 10);
    assert_eq!(counts[0], 4);
    assert!(counts[1..].iter().all(|c| *c == 0));
}

#[test]
fn scenario_nine_samples_ten_buckets() {
    let values = [1u64, 1, 1, 4, 38, 38, 38, 39, 50];
    let h = ingest(&values, 10);
    assert_eq!(h.count(), 9);
    assert_eq!(h.min(), Some(1));
    assert_eq!(h.max(), Some(50));
    // range 49 over 10 buckets: width is the ceiling, 5
    assert_eq!(bucket_width(1, 50, 10), 5);
    let counts = h.bucket_counts();
    assert_eq!(counts[0], 4); // the three 1's and the 4 fall in [1, 6)
    assert_eq!(counts[7], 4); // 38, 38, 38, 39
    assert_eq!(counts[9], 1); // 50
    assert_eq!(counts.iter().sum::<usize>(), 9);
}

#[test]
fn scenario_render_exact_text() {
    let values = [1u64, 1, 1, 4, 38, 38, 38, 39, 50];
    let h = ingest(&values, 10);
    let (mean, std_dev, variance) = stats_text(&h);
    let rendered = h.render(&mean, &std_dev, &variance);
    let expected = format!(
        "# Number of samples = 9\n\
         # Min = 1\n\
         # Max = 50\n\
         #\n\
         # Mean = {mean}\n\
         # Standard deviation = {std_dev}\n\
         # Variance = {variance}\n\
         #\n\
         # Each \u{220e} is a count of 1\n\
         #\n \
         1 ..  6 [ 4 ]: \u{220e}\u{220e}\u{220e}\u{220e}\n \
         6 .. 11 [ 0 ]: \n\
         11 .. 16 [ 0 ]: \n\
         16 .. 21 [ 0 ]: \n\
         21 .. 26 [ 0 ]: \n\
         26 .. 31 [ 0 ]: \n\
         31 .. 36 [ 0 ]: \n\
         36 .. 41 [ 4 ]: \u{220e}\u{220e}\u{220e}\u{220e}\n\
         41 .. 46 [ 0 ]: \n\
         46 .. 51 [ 1 ]: \u{220e}\n"
    );
    assert_eq!(rendered, expected);
}

#[test]
fn render_is_idempotent() {
    let h = ingest(&[1, 1, 1, 4, 38, 38, 38, 39, 50], 10);
    let (mean, std_dev, variance) = stats_text(&h);
    let first = h.render(&mean, &std_dev, &variance);
    let second = h.render(&mean, &std_dev, &variance);
    assert_eq!(first, second);
}

#[test]
fn empty_histogram_renders_no_data() {
    let h = Histogram::with_buckets(10);
    let rendered = h.render("", "", "");
    let mut expected = String::from(
        "# Number of samples = 0\n\
         # Min = no data\n\
         # Max = no data\n\
         #\n\
         # Mean = no data\n\
         # Standard deviation = no data\n\
         # Variance = no data\n\
         #\n\
         # Each \u{220e} is a count of 1\n\
         #\n",
    );
    for i in 0..10u64 {
        expected.push_str(&format!("{:>2} .. {:>2} [ 0 ]: \n", i, i + 1));
    }
    assert_eq!(rendered, expected);
}

#[test]
fn scale_factor_uses_ceiling_division() {
    assert_eq!(scale_unit(0), 1);
    assert_eq!(scale_unit(1), 1);
    assert_eq!(scale_unit(50), 1);
    assert_eq!(scale_unit(51), 2);
    assert_eq!(scale_unit(100), 2);
    assert_eq!(scale_unit(101), 3);
}

#[test]
fn widest_bucket_fills_the_bar_budget() {
    let h = ingest(&vec![7u64; 100], 1);
    let (mean, std_dev, variance) = stats_text(&h);
    let rendered = h.render(&mean, &std_dev, &variance);
    assert!(rendered.contains("# Each \u{220e} is a count of 2\n"));
    let glyphs = rendered.chars().filter(|c| *c == '\u{220e}').count();
    // one glyph in the scale line, fifty in the single bucket's bar
    assert_eq!(glyphs, 51);
}

#[test]
fn bar_length_rounds_to_nearest() {
    // sixty samples at 0 and one at 10: the unit is ceil(60 / 50) = 2, so
    // the lone sample (half a unit) rounds up to one glyph
    let mut h = Histogram::with_buckets(2);
    for _ in 0..60 {
        h.add(0);
    }
    h.add(10);
    let (mean, std_dev, variance) = stats_text(&h);
    let rendered = h.render(&mean, &std_dev, &variance);
    assert!(rendered.contains("# Each \u{220e} is a count of 2\n"));
    assert!(rendered.ends_with(" 5 .. 10 [  1 ]: \u{220e}\n"));
    // one glyph in the scale line, thirty for the first bucket, one for the second
    let glyphs = rendered.chars().filter(|c| *c == '\u{220e}').count();
    assert_eq!(glyphs, 32);
}

#[test]
fn zero_bucket_count_is_clamped_to_one() {
    let mut h = Histogram::with_buckets(0);
    assert_eq!(h.bucket_count(), 1);
    h.add(42);
    let counts = h.bucket_counts();
    assert_eq!(counts, vec![1]);
}

#[test]
fn try_add_refuses_when_accumulator_is_full() {
    let mut h = Histogram::with_buckets(4);
    assert!(h.try_add(u64::MAX));
    assert!(h.try_add(1));
    assert!(!h.try_add(u64::MAX));
    assert_eq!(h.count(), 2);
    assert_eq!(h.max(), Some(u64::MAX));
}

#[test]
fn bucket_index_clamps_to_last_bucket() {
    assert_eq!(bucket_index(1, 1, 5, 10), 0);
    assert_eq!(bucket_index(4, 1, 5, 10), 0);
    assert_eq!(bucket_index(38, 1, 5, 10), 7);
    assert_eq!(bucket_index(50, 1, 5, 10), 9);
    assert_eq!(bucket_index(u64::MAX, 0, 1, 3), 2);
}

#[test]
fn compute_counts_matches_bucket_counts() {
    let values = vec![1u64, 1, 1, 4, 38, 38, 38, 39, 50];
    let w = bucket_width(1, 50, 10);
    let counts = compute_counts(&values, 1, w, 10);
    let h = ingest(&values, 10);
    assert_eq!(counts, h.bucket_counts());
}

#[test]
fn io_error_carries_the_message() {
    let err = histo::io_error(String::from("bad sample line"));
    assert_eq!(err.to_string(), "bad sample line");
}
