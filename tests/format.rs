use scene_browser::parser::parse;
use scene_browser::value::{YamlEntry, YamlValue};

fn entry(key: &str, value: YamlValue) -> YamlEntry {
    YamlEntry { key: key.to_string(), value }
}

fn reparse_scalar(text: &str) -> YamlValue {
    let lines = vec!["--- !u!1 &1".to_string(), "T:".to_string(), format!("  k: {}", text)];
    let mut docs = parse(&lines).unwrap();
    docs.remove(0).entries.remove(0).value
}

#[test]
fn scalars_write_back_and_read_again() {
    for v in [YamlValue::Int(42), YamlValue::Int(-7), YamlValue::Float("0.25".to_string()), YamlValue::Str("name".to_string())] {
        let text = v.to_indented_string(0);
        assert_eq!(reparse_scalar(&text), v);
    }
    assert_eq!(YamlValue::Int(i64::MIN).to_indented_string(0), "-9223372036854775808");
}

#[test]
fn flow_object_writes_back_and_reads_again() {
    let v = YamlValue::Object(vec![entry("fileID", YamlValue::Int(11)), entry("guid", YamlValue::Str("abc".to_string()))]);
    let text = v.to_indented_string(0);
    assert_eq!(text, "{fileID: 11, guid: abc}");
    assert_eq!(reparse_scalar(&text), v);
}

#[test]
fn block_values_as_text() {
    let v = YamlValue::Entries(vec![entry("a", YamlValue::Int(1)), entry("b", YamlValue::Str("x".to_string()))]);
    assert_eq!(v.to_indented_string(1), "\n  a: 1\n  b: x");
    let arr = YamlValue::Array(vec![vec![entry("c", YamlValue::Int(4)), entry("d", YamlValue::Int(5))]]);
    assert_eq!(arr.to_indented_string(1), "\n  - c: 4\n    d: 5");
    let e = entry("m_Name", YamlValue::Str("Cube".to_string()));
    assert_eq!(e.to_indented_string(1), "  m_Name: Cube");
    assert_eq!(e.to_array_string(1), "  - m_Name: Cube");
}

#[test]
fn multi_line_strings_are_quoted() {
    assert_eq!(YamlValue::Str("one\ntwo".to_string()).to_indented_string(1), "'one\r\n  two'");
    assert_eq!(YamlValue::Str("a\\nb\nc".to_string()).to_indented_string(0), "\"a\\nb\r\nc\"");
}

#[test]
fn document_as_text() {
    let lines: Vec<String> = "--- !u!4 &10\nTransform:\n  m_Father: {fileID: 0}\n  m_RootOrder: 0\n"
        .lines()
        .map(String::from)
        .collect();
    let docs = parse(&lines).unwrap();
    assert_eq!(docs[0].to_text(), "--- !u!4 &10\nTransform:\n  m_Father: {fileID: 0}\n  m_RootOrder: 0");
}

#[test]
fn document_with_several_entries_reads_back() {
    let lines: Vec<String> = "--- !u!114 &-5\nMonoBehaviour:\n  m_Enabled: 1\n  m_GameObject: {fileID: 11, guid: abc}\n  speed: 2.50\n  label: hi there\n"
        .lines()
        .map(String::from)
        .collect();
    let docs = parse(&lines).unwrap();
    let text = docs[0].to_text();
    let again: Vec<String> = text.split('\n').map(String::from).collect();
    assert_eq!(parse(&again).unwrap(), docs);
}
