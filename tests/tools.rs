use chat_server::csv::{Csv, Record};
use chat_server::fetcher::generate_filename;
use chat_server::text::{count_lines, format_decimal, split_on};
use chat_server::weather::{validate_units, Cli, UnitsError};

fn cli(units: &str) -> Cli {
    Cli { city: vec!["Paris".to_string()], units: units.to_string(), detailed: false }
}

#[test]
fn units_are_matched_in_any_case() {
    assert!(cli("Metric").is_metric());
    assert!(!cli("Metric").is_imperial());
    assert!(cli("IMPERIAL").is_imperial());
    assert!(cli("kelvin").is_kelvin());
    assert!(!cli("celsius").is_kelvin());
}

#[test]
fn units_are_validated() {
    assert!(validate_units("Kelvin").is_ok());
    match validate_units("furlongs") {
        Err(UnitsError::InvalidUnits(u)) => assert_eq!(u, "furlongs"),
        Ok(()) => panic!("expected an error"),
    }
}

#[test]
fn file_names_for_urls() {
    assert_eq!(generate_filename("https://example.com/a?b=c&d=e"), "example.com_a_b_c_d_e.txt");
    assert_eq!(generate_filename("http://x.org/"), "x.org_.txt");
}

#[test]
fn lines_are_counted_like_str_lines() {
    assert_eq!(count_lines(""), 0);
    assert_eq!(count_lines("one"), 1);
    assert_eq!(count_lines("one\n"), 1);
    assert_eq!(count_lines("one\ntwo"), 2);
    assert_eq!(count_lines("\n\n"), 2);
}

#[test]
fn decimal_and_split() {
    assert_eq!(format_decimal(0), "0");
    assert_eq!(format_decimal(1905), "1905");
    assert_eq!(split_on("a,,b", ','), vec!["a", "", "b"]);
    assert_eq!(split_on("", ','), vec![""]);
}

fn table() -> Csv {
    let lines: Vec<String> = ["name,age,city", "Alice,30,London", "Bob, 25 ,Paris", "Carl,x,Rome", "Dee,40", "Eve,22,Oslo"]
        .iter()
        .map(|s| s.to_string())
        .collect();
    Csv::from_lines(&lines)
}

#[test]
fn csv_cells_by_header() {
    let csv = table();
    assert_eq!(csv.get(0, "name"), Some("Alice"));
    assert_eq!(csv.get(0, "city"), Some("London"));
    assert_eq!(csv.get(0, "local"), None);
    assert_eq!(csv.get(6, "name"), None);
    assert_eq!(csv.get(3, "city"), None);
}

#[test]
fn csv_records_skip_first_row_and_bad_rows() {
    let records: Vec<(String, u32, String)> =
        table().iter_records().into_iter().map(|r: Record| (r.name, r.age, r.city)).collect();
    assert_eq!(records, vec![("Bob".to_string(), 25, "Paris".to_string()), ("Eve".to_string(), 22, "Oslo".to_string())]);
}
