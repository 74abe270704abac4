use csvstar::csvcut::{cut_table, output_has_headers, CsvCutOptions};
use csvstar::table::table_header;
use csvstar::csvutil::csv_reader;
use csvstar::options::CsvOptions;

fn read_rows(input: &str, options: &CsvOptions) -> Vec<Vec<String>> {
    let settings = csv_reader(options);
    let mut reader = csv::ReaderBuilder::new()
        .has_headers(false)
        .flexible(settings.flexible)
        .from_reader(input.as_bytes());
    let mut rows = Vec::new();
    for record in reader.records() {
        let record = record.expect("the input is well formed");
        rows.push(record.iter().map(|field| field.to_string()).collect());
    }
    rows
}

fn write_rows(rows: &Vec<Vec<String>>) -> String {
    let mut writer = csv::WriterBuilder::new().flexible(true).from_writer(Vec::new());
    for row in rows {
        writer.write_record(row).expect("written to memory");
    }
    String::from_utf8(writer.into_inner().expect("flushed")).expect("text")
}

fn run(input: &str, options: &CsvOptions, columns: Option<&[&str]>) -> Result<String, String> {
    let action = CsvCutOptions {
        input_columns: columns.map(|c| c.iter().map(|s| s.to_string()).collect()),
    };
    let rows = read_rows(input, options);
    match cut_table(options, &action, &rows) {
        Ok(out) => Ok(write_rows(&out)),
        Err(e) => Err(e.message()),
    }
}

const INPUT: &str = "col1,col2,col3\n1,2,3\n4,5,6\n7,8,9\n";
const INPUT_NO_HEADERS: &str = "1,2,3\n4,5,6\n7,8,9\n";

#[test]
fn csvcut_test_process_csv_with_valid_input() {
    let options = CsvOptions::default();
    let actual_output = run(INPUT, &options, Some(&["col1", "col3"])).expect("process_csv failed");
    assert_eq!(actual_output, "col1,col3\n1,3\n4,6\n7,9\n");
}

#[test]
fn test_process_csv_with_valid_input_no_headers() {
    let options = CsvOptions { input_has_headers: Some(false), ..Default::default() };
    let actual_output = run(INPUT_NO_HEADERS, &options, Some(&["1", "-1"])).expect("process_csv failed");
    assert_eq!(actual_output, "1,3\n4,6\n7,9\n");
}

#[test]
fn test_process_csv_with_valid_input_no_headers_range() {
    let options = CsvOptions { input_has_headers: Some(false), ..Default::default() };
    let actual_output = run(INPUT_NO_HEADERS, &options, Some(&["1-2"])).expect("process_csv failed");
    assert_eq!(actual_output, "1,2\n4,5\n7,8\n");
}

#[test]
fn csvcut_test_process_csv_without_columns_specified() {
    let options = CsvOptions { output_headers: Some(true), ..Default::default() };
    let actual_output = run(INPUT, &options, None).expect("process_csv failed");
    assert_eq!(actual_output, INPUT);
}

#[test]
fn test_process_csv_inventing_column_headers() {
    let input = format!("{}\n", ",".repeat(100));
    let options = CsvOptions {
        input_has_headers: Some(false),
        output_headers: Some(true),
        ..Default::default()
    };
    let actual_output = run(&input, &options, None).expect("process_csv failed");
    let expected_output = "\
a,b,c,d,e,f,g,h,i,j,k,l,m,n,o,p,q,r,s,t,u,v,w,x,y,z,aa,bb,cc,dd,ee,ff,gg,hh,ii,jj,kk,ll,mm,nn,oo,pp,qq,rr,ss,tt,uu,vv,ww,xx,yy,zz,aaa,bbb,ccc,ddd,eee,fff,ggg,hhh,iii,jjj,kkk,lll,mmm,nnn,ooo,ppp,qqq,rrr,sss,ttt,uuu,vvv,www,xxx,yyy,zzz,aaaa,bbbb,cccc,dddd,eeee,ffff,gggg,hhhh,iiii,jjjj,kkkk,llll,mmmm,nnnn,oooo,pppp,qqqq,rrrr,ssss,tttt,uuuu,vvvv,wwww
,,,,,,,,,,,,,,,,,,,,,,,,,,,,,,,,,,,,,,,,,,,,,,,,,,,,,,,,,,,,,,,,,,,,,,,,,,,,,,,,,,,,,,,,,,,,,,,,,,,,
";
    assert_eq!(actual_output, expected_output);
}

#[test]
fn main_test_process_csv_with_valid_input() {
    let options = CsvOptions { output_headers: Some(true), ..Default::default() };
    let actual_output = run(INPUT, &options, Some(&["col1", "col3"])).expect("process_csv failed");
    assert_eq!(actual_output, "col1,col3\n1,3\n4,6\n7,9\n");
}

#[test]
fn main_test_process_csv_without_columns_specified() {
    let input_data = r#"col1,col2,col3
1,2,3
4,5,6
7,8,9
"#;
    let options = CsvOptions { output_headers: Some(true), ..Default::default() };
    let actual_output = run(input_data, &options, None).expect("process_csv failed");
    assert_eq!(actual_output, input_data);
}

#[test]
fn a_hundred_columns_without_header_get_a_hundred_names() {
    let input = format!("{}\n", ",".repeat(99));
    let options = CsvOptions {
        input_has_headers: Some(false),
        output_headers: Some(true),
        ..Default::default()
    };
    let output = run(&input, &options, None).expect("cut");
    let mut lines = output.lines();
    let names: Vec<&str> = lines.next().expect("header").split(',').collect();
    assert_eq!(names.len(), 100);
    assert_eq!(names[0], "a");
    assert_eq!(names[1], "b");
    assert_eq!(names[25], "z");
    assert_eq!(names[26], "aa");
    assert_eq!(names[99], "vvvv");
    assert_eq!(lines.next(), Some(",".repeat(99).as_str()));
    assert_eq!(lines.next(), None);
}

#[test]
fn no_header_row_is_written_unless_asked_for() {
    let options = CsvOptions { output_headers: Some(false), ..Default::default() };
    assert_eq!(run(INPUT, &options, Some(&["2"])), Ok("2\n5\n8\n".to_string()));
    let options = CsvOptions { input_has_headers: Some(false), ..Default::default() };
    assert_eq!(run(INPUT_NO_HEADERS, &options, Some(&["2"])), Ok("2\n5\n8\n".to_string()));
    let options = CsvOptions {
        input_has_headers: Some(false),
        output_headers: Some(true),
        ..Default::default()
    };
    assert_eq!(run(INPUT_NO_HEADERS, &options, Some(&["3", "1"])), Ok("c,a\n3,1\n6,4\n9,7\n".to_string()));
}

#[test]
fn output_headers_default_to_the_input() {
    assert!(output_has_headers(&CsvOptions::new()));
    let options = CsvOptions { input_has_headers: Some(false), ..Default::default() };
    assert!(!output_has_headers(&options));
    let options = CsvOptions { input_has_headers: Some(true), ..Default::default() };
    assert!(output_has_headers(&options));
    let options = CsvOptions {
        input_has_headers: Some(false),
        output_headers: Some(true),
        ..Default::default()
    };
    assert!(output_has_headers(&options));
    let options = CsvOptions {
        input_has_headers: Some(true),
        output_headers: Some(false),
        ..Default::default()
    };
    assert!(!output_has_headers(&options));
}

#[test]
fn columns_may_repeat_and_change_places() {
    let options = CsvOptions::default();
    assert_eq!(
        run(INPUT, &options, Some(&["col3", "1", "-1", "1-2"])),
        Ok("col3,col1,col3,col1,col2\n3,1,3,1,2\n6,4,6,4,5\n9,7,9,7,8\n".to_string())
    );
}

#[test]
fn short_records_give_empty_fields() {
    let input = "a,b,c\n1,2,3\n4\n7,8\n";
    let options = CsvOptions::default();
    assert_eq!(
        run(input, &options, Some(&["c", "a"])),
        Ok("c,a\n3,1\n,4\n,7\n".to_string())
    );
}

#[test]
fn a_bad_selector_gives_no_output() {
    let options = CsvOptions::default();
    assert_eq!(
        run(INPUT, &options, Some(&["col1", "col9"])),
        Err("Column 'col9' not found in input file".to_string())
    );
    assert_eq!(
        run(INPUT, &options, Some(&["0"])),
        Err("Column 0 is invalid. Columns are 1-based.".to_string())
    );
    assert_eq!(
        run(INPUT, &options, Some(&["4"])),
        Err("Column 4 is invalid. There are 3 columns.".to_string())
    );
}

#[test]
fn an_empty_input_has_no_columns() {
    let options = CsvOptions::default();
    let all = CsvCutOptions { input_columns: None };
    assert_eq!(cut_table(&options, &all, &vec![]), Ok(vec![Vec::<String>::new()]));
    let quiet = CsvOptions { output_headers: Some(false), ..Default::default() };
    assert_eq!(cut_table(&quiet, &all, &vec![]), Ok(vec![]));
    assert_eq!(table_header(&options, &vec![]).len(), 0);
    assert_eq!(
        run("", &options, Some(&["1"])),
        Err("Column 1 is invalid. There are 0 columns.".to_string())
    );
}

#[test]
fn names_of_a_headerless_input_are_its_letters() {
    let options = CsvOptions {
        input_has_headers: Some(false),
        output_headers: Some(true),
        ..Default::default()
    };
    assert_eq!(
        run(INPUT_NO_HEADERS, &options, Some(&["b"])),
        Ok("b\n2\n5\n8\n".to_string())
    );
    let rows = read_rows(INPUT_NO_HEADERS, &options);
    let header = table_header(&options, &rows);
    assert_eq!(header.names, vec!["a".to_string(), "b".to_string(), "c".to_string()]);
}
