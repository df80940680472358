use jsonl_compactor::json::JsonValue;
use jsonl_compactor::json::Row;

fn text_of(value: &JsonValue) -> String {
    let mut out = String::new();
    value.write_text(&mut out);
    out
}

fn sample_row() -> Row {
    let mut row = Row::new();
    row.insert("blob_id".to_string(), JsonValue::String("abc123".to_string()));
    row.insert("size".to_string(), JsonValue::Number(-17));
    row.insert("vendored".to_string(), JsonValue::Bool(false));
    row.insert("license".to_string(), JsonValue::Null);
    row.insert(
        "tags".to_string(),
        JsonValue::Array(vec!["a".to_string(), "b\"c".to_string()]),
    );
    row
}

#[test]
fn text_of_plain_values() {
    assert_eq!(text_of(&JsonValue::Null), "null");
    assert_eq!(text_of(&JsonValue::Bool(true)), "true");
    assert_eq!(text_of(&JsonValue::Bool(false)), "false");
    assert_eq!(text_of(&JsonValue::Number(0)), "0");
    assert_eq!(text_of(&JsonValue::Number(1_700_000_000_000_000_000)), "1700000000000000000");
    assert_eq!(text_of(&JsonValue::Number(i64::MIN)), "-9223372036854775808");
    assert_eq!(text_of(&JsonValue::String("plain".to_string())), "\"plain\"");
    assert_eq!(text_of(&JsonValue::Array(Vec::new())), "[]");
    assert_eq!(text_of(&JsonValue::Array(vec!["x".to_string()])), "[\"x\"]");
    assert_eq!(
        text_of(&JsonValue::Array(vec!["x".to_string(), "".to_string(), "z".to_string()])),
        "[\"x\",\"\",\"z\"]"
    );
}

#[test]
fn strings_are_quoted_and_escaped() {
    assert_eq!(text_of(&JsonValue::String("a\"b".to_string())), "\"a\\\"b\"");
    assert_eq!(text_of(&JsonValue::String("a\\b".to_string())), "\"a\\\\b\"");
    assert_eq!(text_of(&JsonValue::String("l1\nl2\tx\r".to_string())), "\"l1\\nl2\\tx\\r\"");
    assert_eq!(text_of(&JsonValue::String("\u{1}".to_string())), "\"\\u0001\"");
    assert_eq!(text_of(&JsonValue::String("caf\u{e9} \u{4e2d}".to_string())), "\"caf\u{e9} \u{4e2d}\"");
    assert_eq!(text_of(&JsonValue::String(String::new())), "\"\"");
}

#[test]
fn value_text_agrees_with_serde_json() {
    let texts = ["", "plain", "q\"uote", "back\\slash", "ctl\u{0}\u{1f}", "\u{7f}\u{80}", "\u{1f600}"];
    for text in texts {
        let expected = serde_json::Value::String(text.to_string()).to_string();
        assert_eq!(text_of(&JsonValue::String(text.to_string())), expected);
    }
    for n in [0i64, -1, 1, i64::MAX, i64::MIN] {
        let expected = serde_json::Value::Number(serde_json::Number::from(n)).to_string();
        assert_eq!(text_of(&JsonValue::Number(n)), expected);
    }
    let list = vec!["a".to_string(), "b\nc".to_string()];
    let expected = serde_json::Value::Array(
        list.iter().map(|s| serde_json::Value::String(s.clone())).collect(),
    )
    .to_string();
    assert_eq!(text_of(&JsonValue::Array(list)), expected);
}

#[test]
fn row_line_is_compact_and_in_field_order() {
    assert_eq!(
        sample_row().to_json_line(),
        "{\"blob_id\":\"abc123\",\"size\":-17,\"vendored\":false,\"license\":null,\"tags\":[\"a\",\"b\\\"c\"]}\n"
    );
    assert_eq!(Row::new().to_json_line(), "{}\n");
}

#[test]
fn row_line_parses_back_to_the_same_fields() {
    let line = sample_row().to_json_line();
    let parsed: serde_json::Value = serde_json::from_str(&line).unwrap();
    let object = parsed.as_object().unwrap();
    assert_eq!(object.len(), 5);
    assert_eq!(object.get("blob_id").unwrap().as_str(), Some("abc123"));
    assert_eq!(object.get("size").unwrap().as_i64(), Some(-17));
    assert_eq!(object.get("vendored").unwrap().as_bool(), Some(false));
    assert!(object.get("license").unwrap().is_null());
    let tags: Vec<&str> =
        object.get("tags").unwrap().as_array().unwrap().iter().map(|t| t.as_str().unwrap()).collect();
    assert_eq!(tags, vec!["a", "b\"c"]);
}

#[test]
fn field_names_are_escaped_too() {
    let mut row = Row::new();
    row.insert("we\"ird\n".to_string(), JsonValue::Number(1));
    assert_eq!(row.to_json_line(), "{\"we\\\"ird\\n\":1}\n");
}

#[test]
fn insert_replaces_a_field_in_place() {
    let mut row = sample_row();
    assert_eq!(row.len(), 5);
    row.insert("size".to_string(), JsonValue::Number(99));
    assert_eq!(row.len(), 5);
    assert_eq!(row.name_at(1), "size");
    assert_eq!(row.value_at(1), &JsonValue::Number(99));
    assert_eq!(row.get("size"), Some(&JsonValue::Number(99)));
    row.insert("contents".to_string(), JsonValue::String("text".to_string()));
    assert_eq!(row.len(), 6);
    assert_eq!(row.name_at(5), "contents");
    assert_eq!(row.name_at(0), "blob_id");
}

#[test]
fn get_finds_fields_by_name() {
    let row = sample_row();
    assert_eq!(row.get("blob_id"), Some(&JsonValue::String("abc123".to_string())));
    assert_eq!(row.get("license"), Some(&JsonValue::Null));
    assert_eq!(row.get("missing"), None);
    assert_eq!(row.get("blob_id").unwrap().as_str(), Some("abc123"));
    assert_eq!(row.get("size").unwrap().as_str(), None);
    assert_eq!(Row::new().get("blob_id"), None);
}

#[test]
fn clones_hold_the_same_fields() {
    let row = sample_row();
    let copy = row.clone();
    assert_eq!(copy, row);
    assert_eq!(copy.to_json_line(), row.to_json_line());
    let value = JsonValue::Array(vec!["p".to_string(), "q".to_string()]);
    assert_eq!(value.duplicate(), value);
    assert_eq!(JsonValue::Number(5).duplicate(), JsonValue::Number(5));
}

fn escaped(c: char) -> String {
    match c {
        '"' => "\\\"".to_string(),
        '\\' => "\\\\".to_string(),
        '\u{8}' => "\\b".to_string(),
        '\t' => "\\t".to_string(),
        '\n' => "\\n".to_string(),
        '\u{c}' => "\\f".to_string(),
        '\r' => "\\r".to_string(),
        c if (c as u32) < 0x20 => {
            let digits = ['0', '1', '2', '3', '4', '5', '6', '7', '8', '9', 'a', 'b', 'c', 'd', 'e', 'f'];
            let n = c as usize;
            format!("\\u00{}{}", digits[n / 16], digits[n % 16])
        }
        c => c.to_string(),
    }
}

#[test]
fn every_character_is_escaped_by_the_rule() {
    let mut all = String::new();
    let mut expected = String::from("\"");
    let samples = (0u32..0x3000).chain([0xd7ff, 0xe000, 0xfffd, 0xffff, 0x1_0000, 0x1_f600, 0x10_ffff]);
    for code in samples {
        let c = char::from_u32(code).unwrap();
        assert_eq!(text_of(&JsonValue::String(c.to_string())), format!("\"{}\"", escaped(c)));
        all.push(c);
        expected.push_str(&escaped(c));
    }
    expected.push('"');
    assert_eq!(text_of(&JsonValue::String(all)), expected);
    assert_eq!(text_of(&JsonValue::String("\u{1b}[0m".to_string())), "\"\\u001b[0m\"");
    assert_eq!(text_of(&JsonValue::String("\u{0}\u{1f}\u{7f}".to_string())), "\"\\u0000\\u001f\u{7f}\"");
}

#[test]
fn a_record_is_one_line() {
    let mut row = Row::new();
    row.insert("a\nb".to_string(), JsonValue::String("x\ny\r\n".to_string()));
    row.insert("list".to_string(), JsonValue::Array(vec!["\n".to_string(), "\n\n".to_string()]));
    let line = row.to_json_line();
    assert_eq!(line.matches('\n').count(), 1);
    assert!(line.ends_with('\n'));
    assert_eq!(line, "{\"a\\nb\":\"x\\ny\\r\\n\",\"list\":[\"\\n\",\"\\n\\n\"]}\n");
}
