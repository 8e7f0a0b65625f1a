use scene_browser::parser::{parse, HeaderFault, ParseError};
use scene_browser::value::{YamlEntry, UnityObject, YamlValue};

fn lines(text: &str) -> Vec<String> {
    text.lines().map(String::from).collect()
}

fn parse_text(text: &str) -> Result<Vec<UnityObject>, ParseError> {
    parse(&lines(text))
}

fn only_value(text: &str) -> YamlValue {
    let mut docs = parse_text(text).unwrap();
    assert_eq!(docs.len(), 1);
    let mut doc = docs.remove(0);
    assert_eq!(doc.entries.len(), 1);
    doc.entries.remove(0).value
}

fn entry(key: &str, value: YamlValue) -> YamlEntry {
    YamlEntry { key: key.to_string(), value }
}

#[test]
fn single_document_has_header_fields_and_entry() {
    let docs = parse_text("--- !u!4 &10\nT:\n  k: v\n").unwrap();
    assert_eq!(docs.len(), 1);
    assert_eq!(docs[0].class_id, 4);
    assert_eq!(docs[0].id, "10");
    assert_eq!(docs[0].object_type_name, "T");
    assert_eq!(docs[0].entries, vec![entry("k", YamlValue::Str("v".to_string()))]);
}

#[test]
fn single_document_scalar_kinds() {
    assert_eq!(only_value("--- !u!1 &5\nT:\n  k: 42\n"), YamlValue::Int(42));
    assert_eq!(only_value("--- !u!1 &5\nT:\n  k: -7\n"), YamlValue::Int(-7));
    assert_eq!(only_value("--- !u!1 &5\nT:\n  k: 1.5\n"), YamlValue::Float("1.5".to_string()));
    assert_eq!(only_value("--- !u!1 &5\nT:\n  k: 2e3\n"), YamlValue::Float("2e3".to_string()));
    assert_eq!(only_value("--- !u!1 &5\nT:\n  k: hello world\n"), YamlValue::Str("hello world".to_string()));
}

#[test]
fn integer_literals_that_write_back_the_same_are_integers() {
    assert_eq!(only_value("--- !u!1 &5\nT:\n  k: 9223372036854775807\n"), YamlValue::Int(i64::MAX));
    assert_eq!(only_value("--- !u!1 &5\nT:\n  k: -9223372036854775808\n"), YamlValue::Int(i64::MIN));
    assert_eq!(only_value("--- !u!1 &5\nT:\n  k: -0\n"), YamlValue::Int(0));
    assert_eq!(only_value("--- !u!1 &5\nT:\n  k: 0\n"), YamlValue::Int(0));
}

#[test]
fn zero_padded_guid_stays_a_string() {
    let guid = "00000000000000000000000000000000";
    assert_eq!(only_value(&format!("--- !u!1 &5\nT:\n  k: {}\n", guid)), YamlValue::Str(guid.to_string()));
    assert_eq!(only_value("--- !u!1 &5\nT:\n  k: 007\n"), YamlValue::Str("007".to_string()));
    assert_eq!(only_value("--- !u!1 &5\nT:\n  k: +5\n"), YamlValue::Str("+5".to_string()));
}

#[test]
fn integer_out_of_range_is_a_float() {
    assert_eq!(
        only_value("--- !u!1 &5\nT:\n  k: 12345678901234567890123\n"),
        YamlValue::Float("12345678901234567890123".to_string())
    );
}

#[test]
fn lone_space_is_empty_string() {
    assert_eq!(only_value("--- !u!1 &5\nT:\n  k: \n"), YamlValue::Str(String::new()));
    assert_eq!(only_value("--- !u!1 &5\nT:\n  k:\n"), YamlValue::Str(String::new()));
}

#[test]
fn transform_scenario_builds_repository() {
    let text = "--- !u!4 &10\nTransform:\n  m_GameObject: {fileID: 11}\n  m_LocalRotation: {x: 0, y: 0, z: 0, w: 1}\n  m_LocalPosition: {x: 0, y: 0, z: 0}\n  m_LocalScale: {x: 1, y: 1, z: 1}\n  m_Children: []\n  m_Father: {fileID: 0}\n  m_RootOrder: 0\n";
    let docs = parse_text(text).unwrap();
    let t = &docs[0];
    assert_eq!(t.id, "10");
    assert_eq!(t.entries[0], entry("m_GameObject", YamlValue::Object(vec![entry("fileID", YamlValue::Int(11))])));
    assert_eq!(t.entries[4], entry("m_Children", YamlValue::Str("[]".to_string())));
}

#[test]
fn flow_mapping_split_across_lines_matches_single_line() {
    let split = only_value("--- !u!1 &5\nT:\n  m_Color: {r: 1, g: 1,\n    b: 1, a: 1}\n");
    let single = only_value("--- !u!1 &5\nT:\n  m_Color: {r: 1, g: 1, b: 1, a: 1}\n");
    assert_eq!(split, single);
    assert_eq!(
        single,
        YamlValue::Object(vec![
            entry("r", YamlValue::Int(1)),
            entry("g", YamlValue::Int(1)),
            entry("b", YamlValue::Int(1)),
            entry("a", YamlValue::Int(1)),
        ])
    );
}

#[test]
fn negative_anchor_is_kept_verbatim() {
    let docs = parse_text("--- !u!1 &-47246275\nGameObject:\n  m_Name: A\n").unwrap();
    assert_eq!(docs[0].id, "-47246275");
    assert_eq!(docs[0].class_id, 1);
}

#[test]
fn empty_input_gives_no_documents() {
    assert_eq!(parse(&vec![]).unwrap(), vec![]);
    assert_eq!(parse_text("%YAML 1.1\n%TAG !u! tag:unity3d.com,2011:\n\n   \n").unwrap(), vec![]);
}

#[test]
fn nested_block_mapping() {
    let v = only_value("--- !u!1 &5\nT:\n  outer:\n    a: 1\n    inner:\n      b: x\n    c: 2\n");
    assert_eq!(
        v,
        YamlValue::Entries(vec![
            entry("a", YamlValue::Int(1)),
            entry("inner", YamlValue::Entries(vec![entry("b", YamlValue::Str("x".to_string()))])),
            entry("c", YamlValue::Int(2)),
        ])
    );
}

#[test]
fn block_sequence_of_mappings() {
    let docs = parse_text(
        "--- !u!1 &5\nGameObject:\n  m_Component:\n  - component: {fileID: 4}\n  - component: {fileID: 7}\n    extra: 1\n  m_Layer: 0\n",
    )
    .unwrap();
    let es = &docs[0].entries;
    assert_eq!(es.len(), 2);
    assert_eq!(
        es[0],
        entry(
            "m_Component",
            YamlValue::Array(vec![
                vec![entry("component", YamlValue::Object(vec![entry("fileID", YamlValue::Int(4))]))],
                vec![
                    entry("component", YamlValue::Object(vec![entry("fileID", YamlValue::Int(7))])),
                    entry("extra", YamlValue::Int(1)),
                ],
            ])
        )
    );
    assert_eq!(es[1], entry("m_Layer", YamlValue::Int(0)));
}

#[test]
fn sequence_of_flow_mappings_has_empty_keys() {
    let v = only_value("--- !u!4 &5\nT:\n  m_Children:\n  - {fileID: 8}\n  - {fileID: 9}\n");
    assert_eq!(
        v,
        YamlValue::Array(vec![
            vec![entry("", YamlValue::Object(vec![entry("fileID", YamlValue::Int(8))]))],
            vec![entry("", YamlValue::Object(vec![entry("fileID", YamlValue::Int(9))]))],
        ])
    );
}

#[test]
fn quoted_values_join_continuation_lines() {
    assert_eq!(
        only_value("--- !u!1 &5\nT:\n  t: 'one\n\n    two'\n"),
        YamlValue::Str("one\r\n\r\ntwo".to_string())
    );
    assert_eq!(only_value("--- !u!1 &5\nT:\n  t: \"a\n    b\"\n"), YamlValue::Str("a\nb".to_string()));
    assert_eq!(only_value("--- !u!1 &5\nT:\n  t: 'x: y'\n"), YamlValue::Str("x: y".to_string()));
}

#[test]
fn two_documents_in_order() {
    let docs = parse_text("--- !u!1 &1\nA:\n  x: 1\n--- !u!4 &2\nB:\n  y: 2\n").unwrap();
    assert_eq!(docs.len(), 2);
    assert_eq!(docs[0].id, "1");
    assert_eq!(docs[1].id, "2");
    assert_eq!(docs[1].object_type_name, "B");
    assert_eq!(docs[1].entries, vec![entry("y", YamlValue::Int(2))]);
}

#[test]
fn header_errors() {
    let e = parse_text("--- u!1 &1\n").unwrap_err();
    assert_eq!(e, ParseError::Header { line: "--- u!1 &1".to_string(), fault: HeaderFault::NoClassPrefix });
    let e = parse_text("--- !u!x &1\n").unwrap_err();
    assert_eq!(e, ParseError::Header { line: "--- !u!x &1".to_string(), fault: HeaderFault::BadClassId });
    let e = parse_text("--- !u!1\n").unwrap_err();
    assert_eq!(e, ParseError::Header { line: "--- !u!1".to_string(), fault: HeaderFault::NoId });
    let e = parse_text("--- !u!1 &\nT:\n").unwrap_err();
    assert_eq!(e, ParseError::Header { line: "--- !u!1 &".to_string(), fault: HeaderFault::EmptyId });
    let e = parse_text("--- !u!1 1\n").unwrap_err();
    assert_eq!(e, ParseError::Header { line: "--- !u!1 1".to_string(), fault: HeaderFault::NoIdPrefix });
}

#[test]
fn missing_colon_is_an_error() {
    let e = parse_text("--- !u!1 &1\nT:\n  novalue\n").unwrap_err();
    assert_eq!(e, ParseError::MissingColon { line: "  novalue".to_string() });
    let e = parse_text("--- !u!1 &1\nTypeName\n").unwrap_err();
    assert_eq!(e, ParseError::MissingColon { line: "TypeName".to_string() });
}

#[test]
fn over_indented_line_is_an_error() {
    let e = parse_text("--- !u!1 &1\nT:\n  a:\n        b: 1\n").unwrap_err();
    assert_eq!(e, ParseError::BadIndent { line: "        b: 1".to_string() });
}

#[test]
fn unterminated_values_are_errors() {
    assert_eq!(parse_text("--- !u!1 &1\nT:\n  a: {x: 1,\n").unwrap_err(), ParseError::UnexpectedEnd);
    assert_eq!(parse_text("--- !u!1 &1\nT:\n  a: 'open\n").unwrap_err(), ParseError::UnexpectedEnd);
}

#[test]
fn type_name_may_start_with_a_dash() {
    let docs = parse_text("--- !u!1 &2\n-Odd:\n  k: 1\n").unwrap();
    assert_eq!(docs[0].object_type_name, "-Odd");
    assert_eq!(docs[0].entries, vec![entry("k", YamlValue::Int(1))]);
}
