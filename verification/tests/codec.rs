use hyperwood::error::HefError;
use hyperwood::geometry::Variant;
use hyperwood::model::Model;
use hyperwood::slat::Slat;

fn variant_unit() -> Variant {
    Variant::new(String::from("1"), String::from("1"), String::from("1"))
}

fn slat(name: &str, layer: i64, o: [&str; 3], v: [&str; 3]) -> Slat {
    let line = format!("{} {} {} {} {} {} {}", o[0], o[1], o[2], v[0], v[1], v[2], layer);
    Slat::from_hef_line(&line, String::from(name)).unwrap()
}

fn sample_model() -> Model {
    Model {
        name: String::from("Bench"),
        parameters: String::from("{\"width\":80}"),
        properties: String::from("{}"),
        variant: variant_unit(),
        slats: vec![
            slat("beam", 1, ["0", "0", "0"], ["3", "0", "0"]),
            slat("post", 2, ["1", "0", "0"], ["0", "0", "2.5"]),
            slat("beam", 1, ["0", "1", "0"], ["3", "0", "0"]),
        ],
    }
}

#[test]
fn end_to_end_parse() {
    let input = "Hyperwood Exchange Format\nVersion 1\nhyperwood.org\nTest\n{}\n{\"x\":1,\"y\":1,\"z\":1}\n{}\n1\nbeam\n0 0 0 3 0 0 5 0\n";
    let m = Model::from_hef(input).unwrap();
    assert_eq!(m.name, "Test");
    assert_eq!(m.parameters, "{}");
    assert_eq!(m.properties, "{}");
    assert_eq!(m.variant.x, "1");
    assert_eq!(m.variant.y, "1");
    assert_eq!(m.variant.z, "1");
    assert_eq!(m.slats.len(), 1);
    let s = &m.slats[0];
    assert_eq!(s.name, "beam");
    assert_eq!(s.layer, 5);
    assert_eq!(s.origin.x, "0");
    assert_eq!(s.origin.y, "0");
    assert_eq!(s.origin.z, "0");
    assert_eq!(s.vector.x, "3");
    assert_eq!(s.vector.y, "0");
    assert_eq!(s.vector.z, "0");
}

#[test]
fn serialize_golden_text() {
    let m = Model {
        name: String::from("Test"),
        parameters: String::from("{}"),
        properties: String::from("{}"),
        variant: variant_unit(),
        slats: vec![slat("beam", 5, ["0", "0", "0"], ["3", "0", "0"])],
    };
    let expected = "Hyperwood Exchange Format\nVersion 1\nhyperwood.org\nTest\n{}\n{\"x\":1,\"y\":1,\"z\":1}\n{}\n1\nbeam\n0 0 0 3 0 0 5 0\n";
    assert_eq!(m.to_hef(), expected);
}

#[test]
fn round_trip_whole_model() {
    let m = sample_model();
    let text = m.to_hef();
    let back = Model::from_hef(&text).unwrap();
    assert_eq!(back.name, m.name);
    assert_eq!(back.parameters, m.parameters);
    assert_eq!(back.properties, m.properties);
    assert_eq!(back.variant.x, m.variant.x);
    assert_eq!(back.variant.y, m.variant.y);
    assert_eq!(back.variant.z, m.variant.z);
    assert_eq!(back.slats.len(), m.slats.len());
    for (a, b) in back.slats.iter().zip(m.slats.iter()) {
        assert_eq!(a.name, b.name);
        assert_eq!(a.layer, b.layer);
        assert_eq!(a.origin.x, b.origin.x);
        assert_eq!(a.origin.y, b.origin.y);
        assert_eq!(a.origin.z, b.origin.z);
        assert_eq!(a.vector.x, b.vector.x);
        assert_eq!(a.vector.y, b.vector.y);
        assert_eq!(a.vector.z, b.vector.z);
    }
    // writing the parsed model again reproduces the text itself
    assert_eq!(back.to_hef(), text);
}

#[test]
fn part_table_deduplicates_first_seen() {
    let m = sample_model();
    let text = m.to_hef();
    let lines: Vec<&str> = text.split('\n').collect();
    // two distinct names over three slats
    assert_eq!(lines[7], "2");
    assert_eq!(lines[8], "beam");
    assert_eq!(lines[9], "post");
    // both beam records reference the same index, in storage order
    assert!(lines[10].ends_with(" 0"));
    assert!(lines[11].ends_with(" 1"));
    assert!(lines[12].ends_with(" 0"));
}

#[test]
fn part_count_mismatch_is_rejected() {
    let input = "Hyperwood Exchange Format\nVersion 1\nhyperwood.org\nTest\n{}\n{\"x\":1,\"y\":1,\"z\":1}\n{}\n5\nbeam\n";
    assert_eq!(Model::from_hef(input).unwrap_err(), HefError::PartCountMismatch);
}

#[test]
fn unknown_part_index_is_rejected() {
    let input = "Hyperwood Exchange Format\nVersion 1\nhyperwood.org\nTest\n{}\n{\"x\":1,\"y\":1,\"z\":1}\n{}\n1\nbeam\n0 0 0 3 0 0 5 1\n";
    assert_eq!(Model::from_hef(input).unwrap_err(), HefError::UnknownPartIndex);
}

#[test]
fn malformed_header_is_rejected() {
    let wrong_magic = "Hyperwood exchange format\nVersion 1\nhyperwood.org\nTest\n{}\n{\"x\":1,\"y\":1,\"z\":1}\n{}\n0\n";
    assert_eq!(Model::from_hef(wrong_magic).unwrap_err(), HefError::MalformedHeader);
    let too_short = "Hyperwood Exchange Format\nVersion 1\nhyperwood.org\nTest\n";
    assert_eq!(Model::from_hef(too_short).unwrap_err(), HefError::MalformedHeader);
    let wrong_version = "Hyperwood Exchange Format\nVersion 2\nhyperwood.org\nTest\n{}\n{\"x\":1,\"y\":1,\"z\":1}\n{}\n0\n";
    assert_eq!(Model::from_hef(wrong_version).unwrap_err(), HefError::MalformedHeader);
}

#[test]
fn invalid_documents_are_rejected() {
    // parameters line is no JSON document
    let bad_params = "Hyperwood Exchange Format\nVersion 1\nhyperwood.org\nTest\n{\"a\":}\n{\"x\":1,\"y\":1,\"z\":1}\n{}\n0\n";
    assert_eq!(Model::from_hef(bad_params).unwrap_err(), HefError::InvalidDocument);
    // the scale document must be in canonical form: no spare whitespace
    let spaced_variant = "Hyperwood Exchange Format\nVersion 1\nhyperwood.org\nTest\n{}\n{\"x\":1, \"y\":1,\"z\":1}\n{}\n0\n";
    assert_eq!(Model::from_hef(spaced_variant).unwrap_err(), HefError::InvalidDocument);
    // properties line is no JSON document
    let bad_props = "Hyperwood Exchange Format\nVersion 1\nhyperwood.org\nTest\n{}\n{\"x\":1,\"y\":1,\"z\":1}\nnope nope\n0\n";
    assert_eq!(Model::from_hef(bad_props).unwrap_err(), HefError::InvalidDocument);
}

#[test]
fn nested_documents_are_kept_verbatim() {
    let input = "Hyperwood Exchange Format\nVersion 1\nhyperwood.org\nTest\n{\"a\":[1,2,{\"b\":null}]}\n{\"x\":1,\"y\":1,\"z\":1}\n{\"c\":\"text\"}\n0\n";
    let m = Model::from_hef(input).unwrap();
    assert_eq!(m.parameters, "{\"a\":[1,2,{\"b\":null}]}");
    assert_eq!(m.properties, "{\"c\":\"text\"}");
}

#[test]
fn invalid_numbers_are_rejected() {
    // the part count is no number
    let bad_count = "Hyperwood Exchange Format\nVersion 1\nhyperwood.org\nTest\n{}\n{\"x\":1,\"y\":1,\"z\":1}\n{}\nmany\n";
    assert_eq!(Model::from_hef(bad_count).unwrap_err(), HefError::InvalidNumber);
    // a coordinate field is no number
    let bad_coord = "Hyperwood Exchange Format\nVersion 1\nhyperwood.org\nTest\n{}\n{\"x\":1,\"y\":1,\"z\":1}\n{}\n1\nbeam\n0 a 0 3 0 0 5 0\n";
    assert_eq!(Model::from_hef(bad_coord).unwrap_err(), HefError::InvalidNumber);
    // the layer field is no integer
    let bad_layer = "Hyperwood Exchange Format\nVersion 1\nhyperwood.org\nTest\n{}\n{\"x\":1,\"y\":1,\"z\":1}\n{}\n1\nbeam\n0 0 0 3 0 0 5.5 0\n";
    assert_eq!(Model::from_hef(bad_layer).unwrap_err(), HefError::InvalidNumber);
    // the part index field is no number
    let bad_index = "Hyperwood Exchange Format\nVersion 1\nhyperwood.org\nTest\n{}\n{\"x\":1,\"y\":1,\"z\":1}\n{}\n1\nbeam\n0 0 0 3 0 0 5 first\n";
    assert_eq!(Model::from_hef(bad_index).unwrap_err(), HefError::InvalidNumber);
}

#[test]
fn malformed_records_are_rejected() {
    let seven_fields = "Hyperwood Exchange Format\nVersion 1\nhyperwood.org\nTest\n{}\n{\"x\":1,\"y\":1,\"z\":1}\n{}\n1\nbeam\n0 0 0 3 0 0 5\n";
    assert_eq!(Model::from_hef(seven_fields).unwrap_err(), HefError::MalformedRecord);
    let nine_fields = "Hyperwood Exchange Format\nVersion 1\nhyperwood.org\nTest\n{}\n{\"x\":1,\"y\":1,\"z\":1}\n{}\n1\nbeam\n0 0 0 3 0 0 5 0 0\n";
    assert_eq!(Model::from_hef(nine_fields).unwrap_err(), HefError::MalformedRecord);
}

#[test]
fn blank_record_lines_are_skipped() {
    let input = "Hyperwood Exchange Format\nVersion 1\nhyperwood.org\nTest\n{}\n{\"x\":1,\"y\":1,\"z\":1}\n{}\n1\nbeam\n\n0 0 0 3 0 0 5 0\n\n\n";
    let m = Model::from_hef(input).unwrap();
    assert_eq!(m.slats.len(), 1);
}

#[test]
fn extreme_layers_round_trip() {
    let input = "Hyperwood Exchange Format\nVersion 1\nhyperwood.org\nTest\n{}\n{\"x\":1,\"y\":1,\"z\":1}\n{}\n1\nbeam\n0 0 0 3 0 0 -9223372036854775808 0\n";
    let m = Model::from_hef(input).unwrap();
    assert_eq!(m.slats[0].layer, i64::MIN);
    let overflow = "Hyperwood Exchange Format\nVersion 1\nhyperwood.org\nTest\n{}\n{\"x\":1,\"y\":1,\"z\":1}\n{}\n1\nbeam\n0 0 0 3 0 0 9223372036854775808 0\n";
    assert_eq!(Model::from_hef(overflow).unwrap_err(), HefError::InvalidNumber);
    let count_overflow = "Hyperwood Exchange Format\nVersion 1\nhyperwood.org\nTest\n{}\n{\"x\":1,\"y\":1,\"z\":1}\n{}\n18446744073709551616\n";
    assert_eq!(Model::from_hef(count_overflow).unwrap_err(), HefError::InvalidNumber);
}

#[test]
fn bom_keeps_slat_order() {
    let m = sample_model();
    let lengths = vec![String::from("4"), String::from("3.5"), String::from("4")];
    let lines = m.bom_lines(&lengths);
    assert_eq!(lines, vec!["4 1 beam", "3.5 2 post", "4 1 beam"]);
    assert_eq!(m.to_bom(&lengths), "4 1 beam\n3.5 2 post\n4 1 beam\n");
}

#[test]
fn bom_of_single_slat_model() {
    let input = "Hyperwood Exchange Format\nVersion 1\nhyperwood.org\nTest\n{}\n{\"x\":1,\"y\":1,\"z\":1}\n{}\n1\nbeam\n0 0 0 3 0 0 5 0\n";
    let m = Model::from_hef(input).unwrap();
    // with the identity scale the slat's derived length text is "4"
    assert_eq!(m.to_bom(&vec![String::from("4")]), "4 5 beam\n");
}

#[test]
fn empty_model_round_trips() {
    let m = Model {
        name: String::from(""),
        parameters: String::from("null"),
        properties: String::from("[]"),
        variant: variant_unit(),
        slats: vec![],
    };
    let text = m.to_hef();
    let back = Model::from_hef(&text).unwrap();
    assert_eq!(back.name, "");
    assert_eq!(back.parameters, "null");
    assert_eq!(back.properties, "[]");
    assert_eq!(back.slats.len(), 0);
}
