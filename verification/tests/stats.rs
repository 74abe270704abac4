use csvstar::csvstat::{
    add_record, add_statistic, new_statistics, render_frequencies, scan_table, CsvColumnStat,
    CsvStatOptions,
};
use csvstar::error::ColumnError;
use csvstar::options::CsvOptions;
use csvstar::report::{report_header, report_row, report_table, NumericSummary};

fn is_number(text: &str) -> bool {
    text.parse::<f64>().map_or(false, |x| x.is_finite())
}

fn feed(stat: &mut CsvColumnStat, values: &[Option<&str>]) {
    for value in values {
        let flag = value.map_or(false, is_number);
        add_statistic(*value, flag, stat);
    }
}

fn strings(items: &[&str]) -> Vec<String> {
    items.iter().map(|s| s.to_string()).collect()
}

fn numbers() -> NumericSummary {
    NumericSummary {
        min: "1".to_string(),
        max: "3".to_string(),
        sum: "6".to_string(),
        mean: "2".to_string(),
        median: "0".to_string(),
        stdev: "1".to_string(),
    }
}

#[test]
fn a_new_column_has_seen_nothing() {
    let stat = CsvColumnStat::new(4, "price".to_string());
    assert_eq!(stat.idx(), 4);
    assert_eq!(stat.name(), "price");
    assert_eq!(stat.n(), 0);
    assert_eq!(stat.n_numeric(), 0);
    assert_eq!(stat.n_missing(), 0);
    assert_eq!(stat.n_empty(), 0);
    assert_eq!(stat.unique(), 0);
    assert_eq!(stat.max_len(), 0);
    assert_eq!(stat.min_str(), "");
    assert_eq!(stat.max_str(), "");
    assert!(!stat.nulls());
    assert!(!stat.is_numeric());
    assert_eq!(stat.infer_type(), "string");
    assert_eq!(stat.freq(), Vec::<String>::new());
}

#[test]
fn three_numbers_make_a_numeric_column() {
    let mut stat = CsvColumnStat::new(0, "a".to_string());
    feed(&mut stat, &[Some("1"), Some("2"), Some("3")]);
    assert_eq!(stat.n(), 3);
    assert_eq!(stat.n_numeric(), 3);
    assert_eq!(stat.n_missing(), 0);
    assert_eq!(stat.n_empty(), 0);
    assert_eq!(stat.unique(), 3);
    assert!(stat.is_numeric());
    assert_eq!(stat.infer_type(), "numeric");
    assert_eq!(stat.min("1"), "1");
    assert_eq!(stat.max("3"), "3");
    assert_eq!(stat.min_str(), "1");
    assert_eq!(stat.max_str(), "3");
    assert_eq!(stat.max_len(), 1);
}

#[test]
fn one_text_value_makes_a_text_column() {
    let mut stat = CsvColumnStat::new(0, "a".to_string());
    feed(&mut stat, &[Some("pear")]);
    assert!(!stat.is_numeric());
    assert_eq!(stat.infer_type(), "string");
    assert_eq!(stat.min("ignored"), "pear");
    assert_eq!(stat.max("ignored"), "pear");
    assert_eq!(stat.n_numeric(), 0);
}

#[test]
fn text_columns_order_values_as_text() {
    let mut stat = CsvColumnStat::new(0, "a".to_string());
    feed(&mut stat, &[Some("10"), Some("9"), Some("x"), Some("100"), Some("Zebra"), Some("apple")]);
    assert!(!stat.is_numeric());
    assert_eq!(stat.n_numeric(), 3);
    assert_eq!(stat.min("-"), "10");
    assert_eq!(stat.max("-"), "x");
    assert_eq!(stat.max_len(), 5);
}

#[test]
fn numeric_columns_still_track_the_text_extremes() {
    let mut stat = CsvColumnStat::new(0, "a".to_string());
    feed(&mut stat, &[Some("10"), Some("9"), Some("100")]);
    assert!(stat.is_numeric());
    assert_eq!(stat.min_str(), "10");
    assert_eq!(stat.max_str(), "9");
    assert_eq!(stat.min("9"), "9");
    assert_eq!(stat.max("100"), "100");
}

#[test]
fn the_first_value_sets_both_extremes_whatever_came_before() {
    let mut stat = CsvColumnStat::new(0, "a".to_string());
    feed(&mut stat, &[None, None, Some("m")]);
    assert_eq!(stat.min_str(), "m");
    assert_eq!(stat.max_str(), "m");
    feed(&mut stat, &[Some("")]);
    assert_eq!(stat.min_str(), "");
    assert_eq!(stat.max_str(), "m");
    feed(&mut stat, &[Some("z"), None, Some("b")]);
    assert_eq!(stat.min_str(), "");
    assert_eq!(stat.max_str(), "z");
}

#[test]
fn an_empty_first_value_stays_the_least() {
    let mut stat = CsvColumnStat::new(0, "a".to_string());
    feed(&mut stat, &[Some(""), Some("b")]);
    assert_eq!(stat.min_str(), "");
    assert_eq!(stat.max_str(), "b");
    assert_eq!(stat.n_empty(), 1);
}

#[test]
fn missing_values_are_counted_and_nothing_else_changes() {
    let mut stat = CsvColumnStat::new(0, "a".to_string());
    feed(&mut stat, &[Some("1"), None, Some("2"), None]);
    assert_eq!(stat.n(), 4);
    assert_eq!(stat.n_missing(), 2);
    assert_eq!(stat.n_numeric(), 2);
    assert_eq!(stat.unique(), 2);
    assert!(stat.nulls());
    assert!(stat.is_numeric());
    add_statistic(None, true, &mut stat);
    assert_eq!(stat.n(), 5);
    assert_eq!(stat.n_missing(), 3);
    assert_eq!(stat.n_numeric(), 2);
}

#[test]
fn only_missing_values_make_a_text_column() {
    let mut stat = CsvColumnStat::new(0, "a".to_string());
    feed(&mut stat, &[None, None]);
    assert!(!stat.is_numeric());
    assert!(stat.nulls());
    assert_eq!(stat.unique(), 0);
}

#[test]
fn an_empty_value_is_present_but_no_number() {
    let mut stat = CsvColumnStat::new(0, "a".to_string());
    feed(&mut stat, &[Some("1"), Some(""), Some("2")]);
    assert_eq!(stat.n_empty(), 1);
    assert_eq!(stat.n_numeric(), 2);
    assert_eq!(stat.n_missing(), 0);
    assert!(!stat.nulls());
    assert!(!stat.is_numeric());
    assert_eq!(stat.unique(), 3);
    assert_eq!(stat.count_of(""), 1);
    assert_eq!(stat.min_str(), "");
}

#[test]
fn the_same_value_many_times_is_one_distinct_value() {
    for count in [1usize, 2, 7, 100, 1000] {
        let mut stat = CsvColumnStat::new(0, "a".to_string());
        for _ in 0..count {
            add_statistic(Some("value"), false, &mut stat);
        }
        assert_eq!(stat.unique(), 1);
        assert_eq!(stat.count_of("value"), count);
        assert_eq!(stat.count_of("other"), 0);
        assert_eq!(stat.freq(), vec![format!("value ({}X)", count)]);
        assert_eq!(stat.top_frequent(100), vec![("value".to_string(), count)]);
    }
}

#[test]
fn frequencies_come_rarest_first() {
    let mut stat = CsvColumnStat::new(0, "a".to_string());
    feed(
        &mut stat,
        &[Some("b"), Some("a"), Some("c"), Some("b"), Some("c"), Some("c"), None, Some("d"),
          Some("d"), Some("d"), Some("d")],
    );
    assert_eq!(stat.unique(), 4);
    assert_eq!(stat.freq(), strings(&["a (1X)", "b (2X)", "c (3X)", "d (4X)"]));
    assert_eq!(
        stat.top_frequent(4),
        vec![
            ("a".to_string(), 1),
            ("b".to_string(), 2),
            ("c".to_string(), 3),
            ("d".to_string(), 4)
        ]
    );
}

#[test]
fn the_queue_drops_the_rarest_when_it_is_full() {
    let mut stat = CsvColumnStat::new(0, "a".to_string());
    feed(
        &mut stat,
        &[Some("b"), Some("a"), Some("c"), Some("b"), Some("c"), Some("c"), Some("d"), Some("d"),
          Some("d"), Some("d")],
    );
    assert_eq!(stat.top_frequent(2), vec![("c".to_string(), 3), ("d".to_string(), 4)]);
    assert_eq!(stat.top_frequent(1), vec![("d".to_string(), 4)]);
    assert_eq!(stat.top_frequent(3).len(), 3);
    assert_eq!(stat.top_frequent(9).len(), 4);
    assert_eq!(stat.top_frequent(0), vec![]);
}

#[test]
fn at_most_a_hundred_frequencies_are_listed() {
    let mut stat = CsvColumnStat::new(0, "a".to_string());
    for i in 0..150usize {
        let value = format!("v{}", i);
        for _ in 0..(i + 1) {
            add_statistic(Some(&value), false, &mut stat);
        }
    }
    assert_eq!(stat.unique(), 150);
    let freq = stat.freq();
    assert_eq!(freq.len(), 100);
    let expected: Vec<String> = (50..150usize).map(|i| format!("v{} ({}X)", i, i + 1)).collect();
    assert_eq!(freq, expected);
}

#[test]
fn ties_keep_as_many_values_as_fit() {
    let mut stat = CsvColumnStat::new(0, "a".to_string());
    feed(&mut stat, &[Some("a"), Some("b"), Some("c"), Some("d"), Some("d")]);
    let top = stat.top_frequent(2);
    assert_eq!(top.len(), 2);
    assert_eq!(top[1], ("d".to_string(), 2));
    assert_eq!(top[0].1, 1);
    assert!(["a", "b", "c"].contains(&top[0].0.as_str()));
}

#[test]
fn frequencies_are_written_with_their_counts() {
    let top = vec![("x y".to_string(), 3usize), ("".to_string(), 12)];
    assert_eq!(render_frequencies(&top), strings(&["x y (3X)", " (12X)"]));
    assert_eq!(render_frequencies(&vec![]), Vec::<String>::new());
}

#[test]
fn the_longest_value_is_measured_in_characters() {
    let mut stat = CsvColumnStat::new(0, "a".to_string());
    feed(&mut stat, &[Some("ab"), Some("héllo"), Some("xyz")]);
    assert_eq!(stat.max_len(), 5);
}

#[test]
fn statistics_are_made_for_each_selected_column() {
    let stats = new_statistics(&vec![2, 0, 2], &strings(&["c", "a", "c"]));
    assert_eq!(stats.len(), 3);
    assert_eq!(stats[0].idx(), 2);
    assert_eq!(stats[0].name(), "c");
    assert_eq!(stats[1].idx(), 0);
    assert_eq!(stats[1].name(), "a");
    assert_eq!(stats[2].idx(), 2);
    assert_eq!(stats[2].n(), 0);
}

#[test]
fn a_record_reaches_every_selected_column() {
    let mut stats = new_statistics(&vec![2, 0, 5], &strings(&["c", "a", "f"]));
    let rows = [vec!["1", "x", "3"], vec!["4", "y"], vec!["n", "z", "9", "w"]];
    for row in rows {
        let record = strings(&row);
        let flags: Vec<bool> = record.iter().map(|f| is_number(f)).collect();
        add_record(&mut stats, &record, &flags);
    }
    assert_eq!(stats[0].n(), 3);
    assert_eq!(stats[0].n_missing(), 1);
    assert_eq!(stats[0].n_numeric(), 2);
    assert!(stats[0].is_numeric());
    assert_eq!(stats[0].unique(), 2);
    assert_eq!(stats[1].n(), 3);
    assert_eq!(stats[1].n_missing(), 0);
    assert_eq!(stats[1].n_numeric(), 2);
    assert!(!stats[1].is_numeric());
    assert_eq!(stats[1].max_str(), "n");
    assert_eq!(stats[2].n(), 3);
    assert_eq!(stats[2].n_missing(), 3);
    assert!(!stats[2].is_numeric());
}

#[test]
fn flags_beyond_their_list_count_as_no_number() {
    let mut stats = new_statistics(&vec![0, 1], &strings(&["a", "b"]));
    add_record(&mut stats, &strings(&["1", "2"]), &vec![true]);
    assert_eq!(stats[0].n_numeric(), 1);
    assert_eq!(stats[1].n_numeric(), 0);
}

#[test]
fn the_report_header_names_thirteen_fields() {
    assert_eq!(
        report_header(),
        strings(&[
            "column_id", "column_name", "type", "nulls", "unique", "min", "max", "sum", "mean",
            "median", "stdev", "len", "freq"
        ])
    );
}

#[test]
fn a_numeric_column_reports_figures_and_no_length() {
    let mut stat = CsvColumnStat::new(7, "amount".to_string());
    feed(&mut stat, &[Some("1"), Some("2"), None, Some("3")]);
    let row = report_row(&stat, &numbers(), &stat.freq());
    assert_eq!(row.len(), 13);
    assert_eq!(&row[..12], &strings(&["7", "amount", "Number", "true", "3", "1", "3", "6", "2", "0", "1", ""])[..]);
    let mut listed: Vec<&str> = row[12].split(',').collect();
    listed.sort();
    assert_eq!(listed, vec!["1 (1X)", "2 (1X)", "3 (1X)"]);
}

#[test]
fn a_text_column_reports_texts_and_no_figures() {
    let mut stat = CsvColumnStat::new(0, "city".to_string());
    feed(&mut stat, &[Some("Oslo"), Some("Bergen"), Some("Oslo")]);
    let row = report_row(&stat, &numbers(), &stat.freq());
    assert_eq!(
        row,
        strings(&[
            "0", "city", "Text", "false", "2", "Bergen", "Oslo", "", "", "", "", "6",
            "Bergen (1X),Oslo (2X)"
        ])
    );
}

fn table(rows: &[&[&str]]) -> (Vec<Vec<String>>, Vec<Vec<bool>>) {
    let rows: Vec<Vec<String>> = rows.iter().map(|r| strings(r)).collect();
    let flags = rows.iter().map(|r| r.iter().map(|f| is_number(f)).collect()).collect();
    (rows, flags)
}

fn select(columns: &[&str]) -> CsvStatOptions {
    CsvStatOptions { input_columns: Some(strings(columns)), csv: true }
}

#[test]
fn a_table_is_scanned_column_by_column() {
    let (rows, flags) = table(&[
        &["id", "city", "temp"],
        &["1", "Oslo", "3.5"],
        &["2", "Bergen", "-1"],
        &["3", "Oslo"],
        &["4", "", "inf"],
    ]);
    let options = CsvOptions::new();
    let stats = scan_table(&options, &select(&["temp", "city", "1"]), &rows, &flags).unwrap();
    assert_eq!(stats.len(), 3);

    assert_eq!(stats[0].idx(), 2);
    assert_eq!(stats[0].name(), "temp");
    assert_eq!(stats[0].n(), 4);
    assert_eq!(stats[0].n_missing(), 1);
    assert_eq!(stats[0].n_numeric(), 2);
    assert!(!stats[0].is_numeric());

    assert_eq!(stats[1].idx(), 1);
    assert_eq!(stats[1].name(), "city");
    assert_eq!(stats[1].n(), 4);
    assert_eq!(stats[1].n_empty(), 1);
    assert_eq!(stats[1].unique(), 3);
    assert_eq!(stats[1].count_of("Oslo"), 2);
    assert_eq!(stats[1].min_str(), "");
    assert_eq!(stats[1].max_str(), "Oslo");

    assert_eq!(stats[2].idx(), 0);
    assert_eq!(stats[2].name(), "id");
    assert!(stats[2].is_numeric());
    assert_eq!(stats[2].n_numeric(), 4);
}

#[test]
fn a_table_without_header_row_counts_its_first_row() {
    let (rows, flags) = table(&[&["1", "x"], &["2", "y"]]);
    let options = CsvOptions { input_has_headers: Some(false), ..Default::default() };
    let all = CsvStatOptions { input_columns: None, csv: true };
    let stats = scan_table(&options, &all, &rows, &flags).unwrap();
    assert_eq!(stats.len(), 2);
    assert_eq!(stats[0].name(), "a");
    assert_eq!(stats[0].n(), 2);
    assert!(stats[0].is_numeric());
    assert_eq!(stats[1].name(), "b");
    assert_eq!(stats[1].n(), 2);
    assert!(!stats[1].is_numeric());
}

#[test]
fn a_scan_fails_on_a_bad_selector() {
    let (rows, flags) = table(&[&["id", "city"], &["1", "Oslo"]]);
    let options = CsvOptions::new();
    assert_eq!(
        scan_table(&options, &select(&["id", "town"]), &rows, &flags).err(),
        Some(ColumnError::ColumnNotFound("town".to_string()))
    );
    assert_eq!(
        scan_table(&options, &select(&["3"]), &rows, &flags).err(),
        Some(ColumnError::ColumnOutOfRange(3, 2))
    );
}

#[test]
fn rows_without_flags_hold_no_numbers() {
    let (rows, _) = table(&[&["n"], &["1"], &["2"]]);
    let options = CsvOptions::new();
    let flags = vec![vec![false], vec![true]];
    let stats = scan_table(&options, &select(&["n"]), &rows, &flags).unwrap();
    assert_eq!(stats[0].n(), 2);
    assert_eq!(stats[0].n_numeric(), 1);
}

#[test]
fn the_report_has_a_row_for_each_column() {
    let (rows, flags) = table(&[&["id", "city"], &["1", "Oslo"], &["2", "Oslo"], &["3", "Oslo"]]);
    let options = CsvOptions::new();
    let stats = scan_table(&options, &select(&["city", "id"]), &rows, &flags).unwrap();
    let figures = vec![numbers(), numbers()];
    let report = report_table(&options, &stats, &figures);
    assert_eq!(report.len(), 3);
    assert_eq!(report[0], report_header());
    assert_eq!(
        report[1],
        strings(&["1", "city", "Text", "false", "1", "Oslo", "Oslo", "", "", "", "", "4", "Oslo (3X)"])
    );
    assert_eq!(
        &report[2][..12],
        &strings(&["0", "id", "Number", "false", "3", "1", "3", "6", "2", "0", "1", ""])[..]
    );

    let quiet = CsvOptions { output_headers: Some(false), ..Default::default() };
    let report = report_table(&quiet, &stats, &figures);
    assert_eq!(report.len(), 2);
    assert_eq!(report[0][1], "city");
    assert_eq!(report_table(&quiet, &vec![], &vec![]), Vec::<Vec<String>>::new());
}
