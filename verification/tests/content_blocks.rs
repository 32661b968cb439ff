use connector_utils::content::extract_content_part;
use connector_utils::flatten_content;
use connector_utils::json::{Number, Object, Value};

fn text(s: &str) -> Value {
    Value::String(s.to_string())
}

fn array(items: Vec<Value>) -> Value {
    Value::Array(items)
}

fn object(members: Vec<(&str, Value)>) -> Value {
    let mut object = Object::new();
    for (key, value) in members {
        object = object.with(key.to_string(), value);
    }
    Value::Object(object)
}

#[test]
fn flatten_content_plain_string() {
    let val = text("Hello, world!");
    assert_eq!(flatten_content(&val), "Hello, world!");
}

#[test]
fn flatten_content_text_block_array() {
    let val = array(vec![
        object(vec![("type", text("text")), ("text", text("Line 1"))]),
        object(vec![("type", text("text")), ("text", text("Line 2"))]),
    ]);
    assert_eq!(flatten_content(&val), "Line 1\nLine 2");
}

#[test]
fn flatten_content_tool_use_block() {
    let val = array(vec![object(vec![
        ("type", text("tool_use")),
        ("name", text("Read")),
        ("input", object(vec![("file_path", text("/src/main.rs"))])),
    ])]);
    assert_eq!(flatten_content(&val), "[Tool: Read - /src/main.rs]");
}

#[test]
fn flatten_content_mixed_blocks() {
    let val = array(vec![
        object(vec![("type", text("text")), ("text", text("Hello"))]),
        object(vec![
            ("type", text("tool_use")),
            ("name", text("Write")),
            ("input", object(vec![("description", text("writing file"))])),
        ]),
    ]);
    assert_eq!(flatten_content(&val), "Hello\n[Tool: Write - writing file]");
}

#[test]
fn flatten_content_input_text_block() {
    let val = array(vec![object(vec![
        ("type", text("input_text")),
        ("text", text("Codex input")),
    ])]);
    assert_eq!(flatten_content(&val), "Codex input");
}

#[test]
fn flatten_content_null_returns_empty() {
    let val = Value::Null;
    assert_eq!(flatten_content(&val), "");
}

#[test]
fn flatten_content_empty_array() {
    let val = array(vec![]);
    assert_eq!(flatten_content(&val), "");
}

#[test]
fn flatten_content_plain_string_array() {
    let val = array(vec![text("Hello"), text("World")]);
    assert_eq!(flatten_content(&val), "Hello\nWorld");
}

#[test]
fn flatten_content_empty_string() {
    let val = text("");
    assert_eq!(flatten_content(&val), "");
}

#[test]
fn flatten_content_number_returns_empty() {
    let val = Value::Number(Number::Unsigned(42));
    assert_eq!(flatten_content(&val), "");
}

#[test]
fn flatten_content_whitespace_only() {
    let val = text("   ");
    assert_eq!(flatten_content(&val), "   ");
}

#[test]
fn blocks_without_text_leave_no_trace() {
    let val = array(vec![
        text("a"),
        text(""),
        Value::Null,
        object(vec![("type", text("image")), ("text", text("not shown"))]),
        object(vec![("type", text("text")), ("text", text(""))]),
        text("b"),
    ]);
    assert_eq!(flatten_content(&val), "a\nb");
    assert_eq!(flatten_content(&array(vec![text(""), Value::Bool(true)])), "");
}

#[test]
fn untyped_blocks_give_their_text() {
    let untyped = object(vec![("text", text("plain"))]);
    assert_eq!(extract_content_part(&untyped).as_deref(), Some("plain"));
    let typed_by_a_number = object(vec![
        ("type", Value::Number(Number::Unsigned(1))),
        ("text", text("plain")),
    ]);
    assert_eq!(extract_content_part(&typed_by_a_number).as_deref(), Some("plain"));
    assert_eq!(extract_content_part(&object(vec![])), None);
    assert_eq!(extract_content_part(&array(vec![text("nested")])), None);
}

#[test]
fn tool_labels() {
    let bare = object(vec![("type", text("tool_use"))]);
    assert_eq!(extract_content_part(&bare).as_deref(), Some("[Tool: unknown]"));
    let both = object(vec![
        ("type", text("tool_use")),
        ("name", text("Edit")),
        ("text", text("not shown")),
        ("input", object(vec![("file_path", text("/a")), ("description", text("fix"))])),
    ]);
    assert_eq!(extract_content_part(&both).as_deref(), Some("[Tool: Edit - fix]"));
    let empty_description = object(vec![
        ("type", text("tool_use")),
        ("name", text("Edit")),
        ("input", object(vec![("file_path", text("/a")), ("description", text(""))])),
    ]);
    assert_eq!(extract_content_part(&empty_description).as_deref(), Some("[Tool: Edit]"));
    let odd_description = object(vec![
        ("type", text("tool_use")),
        ("name", text("Edit")),
        ("input", object(vec![("file_path", text("/a")), ("description", Value::Null)])),
    ]);
    assert_eq!(extract_content_part(&odd_description).as_deref(), Some("[Tool: Edit - /a]"));
}

#[test]
fn arrays_flatten_part_by_part() {
    let all = flatten_content(&array(vec![text("a"), text("b"), text("c")]));
    let first = flatten_content(&array(vec![text("a"), text("b")]));
    let second = flatten_content(&array(vec![text("c")]));
    assert_eq!(all, format!("{first}\n{second}"));
}

#[test]
fn objects_map_each_key_once() {
    let twice = Object::new()
        .with("k".to_string(), text("old"))
        .with("ü".to_string(), text("other"))
        .with("k".to_string(), text("new"));
    assert_eq!(twice.members().len(), 2);
    let copy = Value::Object(twice).clone();
    assert_eq!(copy.get_str("k"), Some("new"));
    assert_eq!(copy.get_str("ü"), Some("other"));
    assert!(copy.get("u").is_none());
    assert!(text("k").get("k").is_none());
}

#[test]
fn copies_of_arrays_hold_the_same() {
    let original = array(vec![text("a"), array(vec![Value::Bool(true), text("b")])]);
    let copy = original.clone();
    assert_eq!(format!("{copy:?}"), format!("{original:?}"));
}
