use csvstar::args::{build_options, split_columns, split_selectors, ArgValues};
use csvstar::options::CsvOptions;

fn no_args() -> ArgValues {
    ArgValues {
        input: None,
        output: None,
        no_output_headers: None,
        input_has_no_headers: None,
        flexible: None,
        trim_fields: None,
        delimiter: None,
        quote_char: None,
        escape_char: None,
        comment_char: None,
    }
}

fn given() -> ArgValues {
    ArgValues {
        input: Some("test.csv".to_string()),
        output: Some("output.csv".to_string()),
        no_output_headers: Some(true),
        input_has_no_headers: Some(true),
        flexible: Some(false),
        trim_fields: Some(true),
        delimiter: Some(";".to_string()),
        quote_char: Some("'".to_string()),
        escape_char: Some("@".to_string()),
        comment_char: Some("$".to_string()),
    }
}

#[test]
fn args_test_build_args() {
    let options = build_options(given());

    assert_eq!(options.input_file.unwrap(), "test.csv");
    assert_eq!(options.output_file.unwrap(), "output.csv");

    assert_eq!(options.output_headers.unwrap(), false);
    assert_eq!(options.input_has_headers.unwrap(), false);
    assert_eq!(options.delimiter.unwrap(), ';');
    assert_eq!(options.quote_char.unwrap(), '\'');
    assert_eq!(options.escape_char.unwrap(), '@');
    assert_eq!(options.comment_char.unwrap(), '$');
    assert_eq!(options.trim_fields.unwrap(), true);
}

#[test]
fn csvcut_test_build_args() {
    let columns: Vec<String> = split_columns(&vec!["col1,col2".to_string()]);
    assert_eq!(columns, vec!["col1", "col2"]);
}

#[test]
fn main_test_build_args() {
    let options = build_options(given());
    let columns: Vec<String> = split_columns(&vec!["col1,col2".to_string()]);

    assert_eq!(options.input_file.unwrap(), "test.csv");
    assert_eq!(options.output_file.unwrap(), "output.csv");
    assert_eq!(columns, vec!["col1", "col2"]);

    assert_eq!(options.output_headers.unwrap(), false);
    assert_eq!(options.input_has_headers.unwrap(), false);
    assert_eq!(options.delimiter.unwrap(), ';');
    assert_eq!(options.quote_char.unwrap(), '\'');
    assert_eq!(options.escape_char.unwrap(), '@');
    assert_eq!(options.comment_char.unwrap(), '$');
    assert_eq!(options.trim_fields.unwrap(), true);
}

#[test]
fn no_arguments_give_no_options() {
    assert_eq!(build_options(no_args()), CsvOptions::new());
    assert_eq!(CsvOptions::new(), CsvOptions::default());
    assert_eq!(CsvOptions::new().input_file, None);
    assert_eq!(CsvOptions::new().flexible, None);
}

#[test]
fn a_dash_is_no_path() {
    let mut args = no_args();
    args.input = Some("-".to_string());
    args.output = Some("-".to_string());
    let options = build_options(args);
    assert_eq!(options.input_file, None);
    assert_eq!(options.output_file, None);

    let mut args = no_args();
    args.input = Some("--".to_string());
    args.output = Some("-x".to_string());
    let options = build_options(args);
    assert_eq!(options.input_file, Some("--".to_string()));
    assert_eq!(options.output_file, Some("-x".to_string()));
}

#[test]
fn switches_are_turned_round_and_first_characters_taken() {
    let mut args = no_args();
    args.no_output_headers = Some(false);
    args.input_has_no_headers = Some(false);
    args.flexible = Some(true);
    args.delimiter = Some("tab".to_string());
    args.quote_char = Some("«»".to_string());
    let options = build_options(args);
    assert_eq!(options.output_headers, Some(true));
    assert_eq!(options.input_has_headers, Some(true));
    assert_eq!(options.flexible, Some(true));
    assert_eq!(options.trim_fields, None);
    assert_eq!(options.delimiter, Some('t'));
    assert_eq!(options.quote_char, Some('«'));
    assert_eq!(options.escape_char, None);
}

#[test]
fn selectors_are_split_at_commas_and_trimmed() {
    assert_eq!(split_selectors("1,id,-2,3-5"), vec!["1", "id", "-2", "3-5"]);
    assert_eq!(split_selectors(" 1 , id ,\t-2"), vec!["1", "id", "-2"]);
    assert_eq!(split_selectors("a b , c"), vec!["a b", "c"]);
    assert_eq!(split_selectors("one"), vec!["one"]);
    assert_eq!(split_selectors(""), vec![""]);
    assert_eq!(split_selectors(","), vec!["", ""]);
    assert_eq!(split_selectors("a,,b,"), vec!["a", "", "b", ""]);
    for s in ["", ",", "a", "a,b", " a , b ", ",,", "x, ,y", "é, ü"] {
        let expected: Vec<String> = s.split(',').map(|t| t.trim().to_string()).collect();
        assert_eq!(split_selectors(s), expected, "{:?}", s);
    }
}

#[test]
fn repeated_arguments_are_joined_in_order() {
    let values = vec!["1, 2".to_string(), "name".to_string(), "3-4,-1".to_string()];
    assert_eq!(split_columns(&values), vec!["1", "2", "name", "3-4", "-1"]);
    assert_eq!(split_columns(&vec![]), Vec::<String>::new());
}

#[test]
fn selectors_are_split_as_the_standard_library_splits_them() {
    let alphabet = ['a', ',', ' ', '1', '-'];
    let mut all = vec![String::new()];
    let mut last = vec![String::new()];
    for _ in 0..5 {
        let mut next = Vec::new();
        for s in &last {
            for c in alphabet {
                let mut t = s.clone();
                t.push(c);
                next.push(t);
            }
        }
        all.extend(next.iter().cloned());
        last = next;
    }
    for s in &all {
        let expected: Vec<String> = s.split(',').map(|t| t.trim().to_string()).collect();
        assert_eq!(&split_selectors(s), &expected, "{:?}", s);
    }
}
