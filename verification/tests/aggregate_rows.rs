use csvinfo::aggregate::{reached_ceiling, Aggregator};
use csvinfo::field::PERCENT_SCALE;

fn row(cells: &[&str]) -> Vec<String> {
    let mut v: Vec<String> = Vec::new();
    for c in cells {
        v.push(String::from(*c));
    }
    v
}

#[test]
fn fresh_aggregator_has_no_profiles() {
    let agg = Aggregator::new(&Vec::new());
    assert_eq!(agg.column_count(), 0);
    assert_eq!(agg.rows_seen, 0);
}

#[test]
fn mixed_rows_build_expected_profiles() {
    let mut agg = Aggregator::new(&Vec::new());
    agg.ingest(&row(&["1", "2.5", "abc"]));
    agg.ingest(&row(&["3", "x", "def"]));
    assert_eq!(agg.column_count(), 3);
    assert_eq!(agg.fields[0].types, (2, 0, 0));
    assert_eq!(agg.fields[0].max_len, 1);
    assert_eq!(agg.fields[1].types, (0, 1, 1));
    assert_eq!(agg.fields[1].max_len, 3);
    assert_eq!(agg.fields[2].types, (0, 0, 2));
    assert_eq!(agg.fields[2].max_len, 3);
}

#[test]
fn ragged_rows_do_not_penalise_short_rows() {
    let mut agg = Aggregator::new(&Vec::new());
    agg.ingest(&row(&["a", "b"]));
    agg.ingest(&row(&["c"]));
    assert_eq!(agg.column_count(), 2);
    let f0 = &agg.fields[0];
    assert_eq!(f0.types.0 + f0.types.1 + f0.types.2, 2);
    let f1 = &agg.fields[1];
    assert_eq!(f1.types.0 + f1.types.1 + f1.types.2, 1);
    // The second column's percentages are computed over 1 cell, not 2 rows.
    assert_eq!(f1.build_profile(), (0, 0, PERCENT_SCALE));
}

#[test]
fn all_empty_column_latches_nothing() {
    let mut agg = Aggregator::new(&Vec::new());
    for _ in 0..5 {
        agg.ingest(&row(&[""]));
    }
    let f = &agg.fields[0];
    assert_eq!(f.has_value, false);
    assert_eq!(f.max_len, 0);
    assert_eq!(f.types, (0, 0, 5));
}

#[test]
fn latch_stays_set_after_later_empty_cells() {
    let mut agg = Aggregator::new(&Vec::new());
    agg.ingest(&row(&[""]));
    assert_eq!(agg.fields[0].has_value, false);
    agg.ingest(&row(&[" x "]));
    assert_eq!(agg.fields[0].has_value, true);
    agg.ingest(&row(&[""]));
    assert_eq!(agg.fields[0].has_value, true);
}

#[test]
fn max_width_never_decreases() {
    let mut agg = Aggregator::new(&Vec::new());
    agg.ingest(&row(&["abcd"]));
    assert_eq!(agg.fields[0].max_len, 4);
    agg.ingest(&row(&["x"]));
    assert_eq!(agg.fields[0].max_len, 4);
    agg.ingest(&row(&["abcdef"]));
    assert_eq!(agg.fields[0].max_len, 6);
}

#[test]
fn widths_count_characters_after_trimming() {
    let mut agg = Aggregator::new(&Vec::new());
    agg.ingest(&row(&["  ab  ", "héllo"]));
    assert_eq!(agg.fields[0].max_len, 2);
    assert_eq!(agg.fields[1].max_len, 5);
}

#[test]
fn titles_come_from_header_or_placeholder() {
    let headers = row(&["City", " State "]);
    let mut agg = Aggregator::new(&headers);
    agg.ingest(&row(&["Boise", "ID", "83701"]));
    assert_eq!(agg.fields[0].title, "City");
    assert_eq!(agg.fields[1].title, "State");
    assert_eq!(agg.fields[2].title, "unknown");
}

#[test]
fn positions_follow_first_appearance() {
    let mut agg = Aggregator::new(&Vec::new());
    agg.ingest(&row(&["a"]));
    agg.ingest(&row(&["a", "b", "c"]));
    assert_eq!(agg.column_count(), 3);
    for (i, f) in agg.fields.iter().enumerate() {
        assert_eq!(f.pos, i);
    }
}

#[test]
fn row_ceiling_stops_after_exactly_that_many_rows() {
    let ceiling: Option<u64> = Some(10);
    let mut agg = Aggregator::new(&Vec::new());
    let mut stopped_early = false;
    for i in 0..20 {
        agg.ingest(&row(&[if i % 2 == 0 { "1" } else { "x" }]));
        if reached_ceiling(&ceiling, agg.rows_seen) {
            stopped_early = true;
            break;
        }
    }
    assert!(stopped_early);
    assert_eq!(agg.rows_seen, 10);
    let f = &agg.fields[0];
    assert_eq!(f.types.0 + f.types.1 + f.types.2, 10);
}

#[test]
fn no_ceiling_never_stops() {
    assert_eq!(reached_ceiling(&None, 1000000), false);
    assert_eq!(reached_ceiling(&Some(5), 4), false);
    assert_eq!(reached_ceiling(&Some(5), 5), true);
}
