use hyperwood::cli::{Args, Client, Commands};
use hyperwood::error::HefError;
use hyperwood::geometry::{Point, Variant, Vector};
use hyperwood::num::is_numeric_str;
use hyperwood::slat::Slat;

#[test]
fn numeric_token_grammar_accepts() {
    for t in ["3", "0", "007", "-2.5", "+4", "1.", "1.5e9", "1.5E-3", "2e+8", "10e5"] {
        assert!(is_numeric_str(t), "{} should be numeric", t);
    }
}

#[test]
fn numeric_token_grammar_rejects() {
    for t in ["", ".", ".5", "-", "+", "1..2", "e5", "1e", "1e+", "1 2", "inf", "NaN", "--1", "1a"]
    {
        assert!(!is_numeric_str(t), "{} should not be numeric", t);
    }
}

#[test]
fn point_part_round_trips() {
    let p = Point::from_hef_part("1.5 2 -3").unwrap();
    assert_eq!(p.x, "1.5");
    assert_eq!(p.y, "2");
    assert_eq!(p.z, "-3");
    assert_eq!(p.to_hef_part(), "1.5 2 -3");
}

#[test]
fn vector_part_round_trips() {
    let v = Vector::from_hef_part("0 0 2.5").unwrap();
    assert_eq!(v.x, "0");
    assert_eq!(v.y, "0");
    assert_eq!(v.z, "2.5");
    assert_eq!(v.to_hef_part(), "0 0 2.5");
}

#[test]
fn triple_part_errors() {
    assert_eq!(Point::from_hef_part("1 2").unwrap_err(), HefError::MalformedRecord);
    assert_eq!(Point::from_hef_part("1 2 3 4").unwrap_err(), HefError::MalformedRecord);
    assert_eq!(Point::from_hef_part("1 2 b").unwrap_err(), HefError::InvalidNumber);
    assert_eq!(Vector::from_hef_part("").unwrap_err(), HefError::MalformedRecord);
}

#[test]
fn variant_default_is_identity() {
    let v = Variant::default();
    assert_eq!(v.x, "1");
    assert_eq!(v.y, "1");
    assert_eq!(v.z, "1");
    assert_eq!(v.to_json_line(), "{\"x\":1,\"y\":1,\"z\":1}");
}

#[test]
fn variant_new_keeps_tokens() {
    let v = Variant::new(String::from("0.02"), String::from("0.02"), String::from("0.04"));
    assert_eq!(v.to_json_line(), "{\"x\":0.02,\"y\":0.02,\"z\":0.04}");
}

#[test]
fn slat_line_round_trips() {
    let s = Slat::from_hef_line("0 0 0 3 0 0 5", String::from("beam")).unwrap();
    assert_eq!(s.name, "beam");
    assert_eq!(s.layer, 5);
    assert_eq!(s.origin.x, "0");
    assert_eq!(s.vector.x, "3");
    assert_eq!(s.to_hef_line(), "0 0 0 3 0 0 5");
}

#[test]
fn slat_line_errors() {
    assert_eq!(
        Slat::from_hef_line("0 0 0 3 0 0", String::from("beam")).unwrap_err(),
        HefError::MalformedRecord
    );
    assert_eq!(
        Slat::from_hef_line("0 0 0 3 0 x 5", String::from("beam")).unwrap_err(),
        HefError::InvalidNumber
    );
    assert_eq!(
        Slat::from_hef_line("0 0 0 3 0 0 up", String::from("beam")).unwrap_err(),
        HefError::InvalidNumber
    );
}

#[test]
fn negative_layer_round_trips() {
    let s = Slat::from_hef_line("0 0 0 1 0 0 -7", String::from("beam")).unwrap();
    assert_eq!(s.layer, -7);
    assert_eq!(s.to_hef_line(), "0 0 0 1 0 0 -7");
}

#[test]
fn bom_line_literal() {
    let s = Slat::from_hef_line("0 0 0 3 0 0 2", String::from("A1")).unwrap();
    assert_eq!(s.to_bom_line("4"), "4 2 A1");
}

#[test]
fn client_keeps_its_arguments() {
    let c = Client::new(Args { command: Commands::Bom, filename: None });
    assert_eq!(c.command(), Commands::Bom);
    let c2 = Client::new(
        Args { command: Commands::Requirements, filename: Some(String::from("bench.hef")) },
    );
    assert_eq!(c2.command(), Commands::Requirements);
    assert_eq!(c2.args.filename.as_deref(), Some("bench.hef"));
}
