use arbitrage::stats::{collect_to_table, format_table, StatisticsProvider};
use arbitrage::text::{instrument_csv_header, join_strings, push_decimal, push_i16};

#[test]
fn csv_header_of_an_instrument() {
    assert_eq!(
        instrument_csv_header("SiZ5"),
        "SiZ5 time,SiZ5 bid,SiZ5 ask,SiZ5 mid,SiZ5 micro,SiZ5 micro-mid,SiZ5 imbalance_3,SiZ5 imbalance_5,SiZ5 imbalance_10,SiZ5 imbalance_20,SiZ5 imbalance_50"
    );
}

#[test]
fn numbers_in_decimal() {
    let mut s = String::from("n=");
    push_decimal(&mut s, 0);
    push_decimal(&mut s, 1205);
    assert_eq!(s, "n=01205");
    let mut t = String::new();
    push_i16(&mut t, -32768);
    push_i16(&mut t, 7);
    assert_eq!(t, "-327687");
}

#[test]
fn strings_join_like_slice_join() {
    let parts = vec!["a".to_string(), "bc".to_string(), "".to_string()];
    assert_eq!(join_strings(&parts, "|"), parts.join("|"));
    assert_eq!(join_strings(&Vec::new(), "|"), "");
}

fn rows(pairs: &[(&str, &str)]) -> Vec<(String, String)> {
    pairs.iter().map(|(a, b)| (a.to_string(), b.to_string())).collect()
}

#[test]
fn table_lays_runs_side_by_side() {
    let variants = vec!["x".to_string(), "y".to_string()];
    let runs = vec![rows(&[("win", "1"), ("loss", "2")]), rows(&[("win", "3")])];
    assert_eq!(format_table(&variants, &runs).unwrap(), "v|x|y\n-|-|-\nwin|1|3\nloss|2");
    let too_long = vec![rows(&[("win", "1")]), rows(&[("win", "3"), ("loss", "4")])];
    assert!(format_table(&variants, &too_long).is_none());
    assert_eq!(format_table(&Vec::new(), &Vec::new()).unwrap(), "v|\n-");
}

struct Fixed {
    calls: Vec<u8>,
}

impl StatisticsProvider for Fixed {
    fn variants(&self) -> Vec<String> {
        vec!["a".to_string(), "b".to_string(), "c".to_string()]
    }

    fn run(&mut self, variant: u8) -> Vec<(String, String)> {
        self.calls.push(variant);
        vec![("n".to_string(), format!("{}", variant * 10))]
    }
}

#[test]
fn collect_runs_every_variant_in_order() {
    let mut p = Fixed { calls: Vec::new() };
    assert_eq!(collect_to_table(&mut p).unwrap(), "v|a|b|c\n-|-|-|-\nn|0|10|20");
    assert_eq!(p.calls, vec![0, 1, 2]);
}

#[test]
fn long_numbers_in_decimal() {
    let mut s = String::new();
    arbitrage::text::push_i64(&mut s, i64::MIN);
    assert_eq!(s, i64::MIN.to_string());
    let mut t = String::new();
    arbitrage::text::push_i64(&mut t, 9_000_000_000);
    assert_eq!(t, "9000000000");
}

#[test]
fn csv_header_splits_into_its_fields() {
    let header = arbitrage::text::instrument_csv_header("GLU6");
    let fields: Vec<&str> = header.split(',').collect();
    assert_eq!(fields.len(), 11);
    assert!(fields.iter().all(|f| f.starts_with("GLU6 ")));
    assert_eq!(fields[5], "GLU6 micro-mid");
    assert_eq!(fields[6], "GLU6 imbalance_3");
    assert_eq!(fields[10], "GLU6 imbalance_50");
}
