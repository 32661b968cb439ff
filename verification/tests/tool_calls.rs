use connector_utils::types::NormalizedInvocation;
use connector_utils::{extract_invocations_from_content_blocks, unwrap_skill_invocations};
use connector_utils::json::{Object, Value};

fn text(s: &str) -> Value {
    Value::String(s.to_string())
}

fn array(items: Vec<Value>) -> Value {
    Value::Array(items)
}

fn object(members: Vec<(&str, Value)>) -> Value {
    let mut object = Object::new();
    for (key, value) in members {
        object = object.with(key.to_string(), value);
    }
    Value::Object(object)
}

fn tool(name: &str, call_id: Option<&str>, arguments: Option<Value>) -> NormalizedInvocation {
    NormalizedInvocation {
        kind: "tool".to_string(),
        name: name.to_string(),
        raw_name: None,
        call_id: call_id.map(|id| id.to_string()),
        arguments,
    }
}

#[test]
fn extract_invocations_plain_tool_use() {
    let val = array(vec![
        object(vec![("type", text("text")), ("text", text("Let me read that file."))]),
        object(vec![
            ("type", text("tool_use")),
            ("id", text("toolu_1")),
            ("name", text("Read")),
            ("input", object(vec![("path", text("/src/main.rs"))])),
        ]),
    ]);
    let invocations = extract_invocations_from_content_blocks(&val);
    assert_eq!(invocations.len(), 1);
    assert_eq!(invocations[0].kind, "tool");
    assert_eq!(invocations[0].name, "Read");
    assert!(invocations[0].raw_name.is_none());
    assert_eq!(invocations[0].call_id.as_deref(), Some("toolu_1"));
    assert_eq!(
        invocations[0].arguments.as_ref().unwrap().get_str("path"),
        Some("/src/main.rs")
    );
}

#[test]
fn extract_invocations_skill_not_unwrapped_by_shared_helper() {
    let val = array(vec![object(vec![
        ("type", text("tool_use")),
        ("id", text("toolu_2")),
        ("name", text("skill")),
        ("input", object(vec![("name", text("github-prs"))])),
    ])]);
    let invocations = extract_invocations_from_content_blocks(&val);
    assert_eq!(invocations.len(), 1);
    assert_eq!(invocations[0].kind, "tool");
    assert_eq!(invocations[0].name, "skill");
    assert!(invocations[0].raw_name.is_none());
}

#[test]
fn extract_invocations_skill_without_inner_name_falls_back() {
    let val = array(vec![object(vec![
        ("type", text("tool_use")),
        ("name", text("skill")),
        ("input", object(vec![("arguments", text("something"))])),
    ])]);
    let invocations = extract_invocations_from_content_blocks(&val);
    assert_eq!(invocations.len(), 1);
    assert_eq!(invocations[0].kind, "tool");
    assert_eq!(invocations[0].name, "skill");
    assert!(invocations[0].raw_name.is_none());
}

#[test]
fn extract_invocations_multiple_tools() {
    let val = array(vec![
        object(vec![
            ("type", text("tool_use")),
            ("name", text("Read")),
            ("input", object(vec![("path", text("a.rs"))])),
        ]),
        object(vec![("type", text("text")), ("text", text("Now editing..."))]),
        object(vec![
            ("type", text("tool_use")),
            ("name", text("edit_file")),
            (
                "input",
                object(vec![
                    ("path", text("a.rs")),
                    ("old_str", text("x")),
                    ("new_str", text("y")),
                ]),
            ),
        ]),
        object(vec![
            ("type", text("tool_use")),
            ("name", text("skill")),
            ("input", object(vec![("name", text("git"))])),
        ]),
    ]);
    let invocations = extract_invocations_from_content_blocks(&val);
    assert_eq!(invocations.len(), 3);
    assert_eq!(invocations[0].name, "Read");
    assert_eq!(invocations[0].kind, "tool");
    assert_eq!(invocations[1].name, "edit_file");
    assert_eq!(invocations[1].kind, "tool");
    assert_eq!(invocations[2].name, "skill");
    assert_eq!(invocations[2].kind, "tool");
}

#[test]
fn unwrap_skill_invocations_rewrites_skill_wrapper() {
    let mut invocations = vec![tool(
        "skill",
        Some("toolu_1"),
        Some(object(vec![("name", text("github-prs"))])),
    )];
    unwrap_skill_invocations(&mut invocations);
    assert_eq!(invocations[0].kind, "skill");
    assert_eq!(invocations[0].name, "github-prs");
    assert_eq!(invocations[0].raw_name.as_deref(), Some("skill"));
}

#[test]
fn unwrap_skill_invocations_rewrites_load_skill_wrapper() {
    let mut invocations =
        vec![tool("load_skill", None, Some(object(vec![("name", text("git"))])))];
    unwrap_skill_invocations(&mut invocations);
    assert_eq!(invocations[0].kind, "skill");
    assert_eq!(invocations[0].name, "git");
    assert_eq!(invocations[0].raw_name.as_deref(), Some("load_skill"));
}

#[test]
fn unwrap_skill_invocations_leaves_non_wrappers_unchanged() {
    let mut invocations =
        vec![tool("Read", None, Some(object(vec![("path", text("/src/main.rs"))])))];
    unwrap_skill_invocations(&mut invocations);
    assert_eq!(invocations[0].kind, "tool");
    assert_eq!(invocations[0].name, "Read");
    assert!(invocations[0].raw_name.is_none());
}

#[test]
fn unwrap_skill_invocations_no_inner_name_leaves_unchanged() {
    let mut invocations =
        vec![tool("skill", None, Some(object(vec![("arguments", text("something"))])))];
    unwrap_skill_invocations(&mut invocations);
    assert_eq!(invocations[0].kind, "tool");
    assert_eq!(invocations[0].name, "skill");
    assert!(invocations[0].raw_name.is_none());
}

#[test]
fn extract_invocations_no_tool_use_blocks() {
    let val = array(vec![object(vec![
        ("type", text("text")),
        ("text", text("Just plain text.")),
    ])]);
    assert!(extract_invocations_from_content_blocks(&val).is_empty());
}

#[test]
fn extract_invocations_string_content_returns_empty() {
    let val = text("plain string");
    assert!(extract_invocations_from_content_blocks(&val).is_empty());
}

#[test]
fn extract_invocations_null_returns_empty() {
    let val = Value::Null;
    assert!(extract_invocations_from_content_blocks(&val).is_empty());
}

#[test]
fn extract_invocations_tool_use_missing_name_skipped() {
    let val = array(vec![object(vec![
        ("type", text("tool_use")),
        ("input", object(vec![("path", text("a.rs"))])),
    ])]);
    assert!(extract_invocations_from_content_blocks(&val).is_empty());
}

#[test]
fn identifiers_and_arguments_are_optional() {
    let val = array(vec![object(vec![
        ("type", text("tool_use")),
        ("name", text("ls")),
        ("id", Value::Null),
    ])]);
    let invocations = extract_invocations_from_content_blocks(&val);
    assert_eq!(invocations.len(), 1);
    assert!(invocations[0].call_id.is_none());
    assert!(invocations[0].arguments.is_none());
}

#[test]
fn unwrapping_keeps_identifier_and_arguments() {
    let arguments = object(vec![("name", text("git")), ("arguments", text("log"))]);
    let mut invocations = vec![
        tool("Read", Some("a"), None),
        tool("skill", Some("b"), Some(arguments)),
        tool("skill", Some("c"), None),
    ];
    unwrap_skill_invocations(&mut invocations);
    assert_eq!(invocations.len(), 3);
    assert_eq!(invocations[0].name, "Read");
    assert_eq!(invocations[1].name, "git");
    assert_eq!(invocations[1].call_id.as_deref(), Some("b"));
    assert_eq!(
        invocations[1].arguments.as_ref().unwrap().get_str("arguments"),
        Some("log")
    );
    assert_eq!(invocations[2].kind, "tool");
    assert_eq!(invocations[2].name, "skill");
}

#[test]
fn unwrapping_again() {
    let mut plain = vec![tool("skill", None, Some(object(vec![("name", text("git"))])))];
    unwrap_skill_invocations(&mut plain);
    unwrap_skill_invocations(&mut plain);
    assert_eq!(plain[0].name, "git");
    assert_eq!(plain[0].raw_name.as_deref(), Some("skill"));

    let mut other_wrapper =
        vec![tool("skill", None, Some(object(vec![("name", text("load_skill"))])))];
    unwrap_skill_invocations(&mut other_wrapper);
    assert_eq!(other_wrapper[0].raw_name.as_deref(), Some("skill"));
    unwrap_skill_invocations(&mut other_wrapper);
    assert_eq!(other_wrapper[0].raw_name.as_deref(), Some("load_skill"));
}

#[test]
fn extraction_then_unwrapping() {
    let val = array(vec![
        object(vec![("type", text("tool_use")), ("name", text("Read"))]),
        object(vec![
            ("type", text("tool_use")),
            ("name", text("load_skill")),
            ("input", object(vec![("name", text("git"))])),
        ]),
    ]);
    let mut invocations = extract_invocations_from_content_blocks(&val);
    unwrap_skill_invocations(&mut invocations);
    assert_eq!(invocations[0].kind, "tool");
    assert!(invocations[0].raw_name.is_none());
    assert_eq!(invocations[1].kind, "skill");
    assert_eq!(invocations[1].name, "git");
    assert_eq!(invocations[1].raw_name.as_deref(), Some("load_skill"));
}
