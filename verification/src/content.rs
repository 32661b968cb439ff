//! Flattening message content to plain text.
use vstd::prelude::*;
use vstd::string::*;

use crate::json::Value;
use crate::text::same_text;

verus! {

/// The label that stands for a tool call in flattened text.
pub open spec fn tool_label(name: Seq<char>, description: Seq<char>) -> Seq<char> {
    if description.len() == 0 {
        "[Tool: "@ + name + "]"@
    } else {
        "[Tool: "@ + name + " - "@ + description + "]"@
    }
}

/// What a tool call says of itself: the description among its inputs, failing that the path
/// of the file that it works on, failing that nothing.
pub open spec fn tool_description(item: crate::json::Json) -> Seq<char> {
    match item.get("input"@) {
        Some(input) => match (input.get_str("description"@), input.get_str("file_path"@)) {
            (Some(description), _) => description,
            (None, Some(file_path)) => file_path,
            (None, None) => Seq::empty(),
        },
        None => Seq::empty(),
    }
}

/// The text that a content block contributes: a string is its own text, a text block gives
/// its text, a tool call its label, and anything else nothing.
pub open spec fn content_part(item: crate::json::Json) -> Option<Seq<char>> {
    let block_type = item.get_str("type"@);
    let text = item.get_str("text"@);
    if item is String {
        item.as_str()
    } else if text is Some && (block_type is None || block_type == Some("text"@) || block_type
        == Some("input_text"@)) {
        text
    } else if block_type == Some("tool_use"@) {
        let name = match item.get_str("name"@) {
            Some(name) => name,
            None => "unknown"@,
        };
        Some(tool_label(name, tool_description(item)))
    } else {
        None
    }
}

/// The texts, of those that contribute one that is not empty, of a sequence of blocks.
pub open spec fn content_parts(items: Seq<crate::json::Json>) -> Seq<Seq<char>>
    decreases items.len(),
{
    if items.len() == 0 {
        Seq::empty()
    } else {
        match content_part(items.last()) {
            Some(text) => if text.len() > 0 {
                content_parts(items.drop_last()).push(text)
            } else {
                content_parts(items.drop_last())
            },
            None => content_parts(items.drop_last()),
        }
    }
}

/// The lines one after the other, with a line break between each two.
pub open spec fn joined(lines: Seq<Seq<char>>) -> Seq<char>
    decreases lines.len(),
{
    if lines.len() == 0 {
        Seq::empty()
    } else if lines.len() == 1 {
        lines[0]
    } else {
        joined(lines.drop_last()) + "\n"@ + lines.last()
    }
}

/// The plain text of a message's content.
pub open spec fn flattened(content: crate::json::Json) -> Seq<char> {
    match content {
        crate::json::Json::String(text) => text,
        crate::json::Json::Array(items) => joined(content_parts(items)),
        _ => Seq::empty(),
    }
}

/// No contributed text is empty.
proof fn lemma_parts_not_empty(items: Seq<crate::json::Json>)
    ensures
        forall|i: int|
            0 <= i < content_parts(items).len() ==> (#[trigger] content_parts(items)[i]).len() > 0,
    decreases items.len(),
{
    if items.len() > 0 {
        let before = content_parts(items.drop_last());
        lemma_parts_not_empty(items.drop_last());
        assert forall|i: int| 0 <= i < content_parts(items).len() implies (
        #[trigger] content_parts(items)[i]).len() > 0 by {
            if i < before.len() {
                assert(content_parts(items)[i] == before[i]);
            }
        }
    }
}

/// Lines that are not empty join to an empty text only if there are none.
proof fn lemma_joined_empty(lines: Seq<Seq<char>>)
    requires
        forall|i: int| 0 <= i < lines.len() ==> (#[trigger] lines[i]).len() > 0,
    ensures
        joined(lines).len() == 0 <==> lines.len() == 0,
{
    if lines.len() > 1 {
        assert(lines.last().len() > 0);
    }
}

/// Extracts the text of a single content block.
pub fn extract_content_part(item: &Value) -> (r: Option<String>)
    ensures
        crate::types::string_view(r) == content_part(item@),
{
    if let Some(text) = item.as_str() {
        return Some(text.to_owned());
    }
    let block_type = item.get_str("type");
    if let Some(text) = item.get_str("text") {
        let plain = match block_type {
            Some(t) => same_text(t, "text") || same_text(t, "input_text"),
            None => true,
        };
        if plain {
            return Some(text.to_owned());
        }
    }
    let tool_use = match block_type {
        Some(t) => same_text(t, "tool_use"),
        None => false,
    };
    if !tool_use {
        return None;
    }
    let name = item.get_str("name").unwrap_or("unknown");
    let mut label = "[Tool: ".to_owned();
    label.append(name);
    let input = item.get("input");
    let description = match input {
        Some(input) => match input.get_str("description") {
            Some(description) => description,
            None => input.get_str("file_path").unwrap_or(""),
        },
        None => "",
    };
    proof {
        reveal_strlit("");
        assert(""@ =~= Seq::empty());
    }
    if !description.is_empty() {
        label.append(" - ");
        label.append(description);
    }
    label.append("]");
    Some(label)
}

/// Flattens content that is a string or an array of content blocks: the text of text blocks
/// and the labels of tool calls, one to a line.
#[must_use]
pub fn flatten_content(val: &Value) -> (r: String)
    ensures
        r@ == flattened(val@),
{
    if let Some(text) = val.as_str() {
        return text.to_owned();
    }
    let mut result = String::new();
    if let Some(items) = val.as_array() {
        let ghost blocks = crate::json::items_view(items@);
        let mut i: usize = 0;
        proof {
            crate::json::lemma_items_view(items@);
            assert(blocks.take(0) =~= Seq::empty());
        }
        while i < items.len()
            invariant
                i <= items.len(),
                blocks == crate::json::items_view(items@),
                blocks.len() == items.len(),
                forall|j: int| 0 <= j < items.len() ==> #[trigger] blocks[j] == items[j]@,
                result@ == joined(content_parts(blocks.take(i as int))),
            decreases items.len() - i,
        {
            proof {
                assert(blocks.take(i + 1).drop_last() =~= blocks.take(i as int));
                assert(blocks.take(i + 1).last() == items[i as int]@);
                lemma_parts_not_empty(blocks.take(i as int));
                lemma_joined_empty(content_parts(blocks.take(i as int)));
            }
            if let Some(text) = extract_content_part(&items[i]) {
                if !text.as_str().is_empty() {
                    let ghost before = content_parts(blocks.take(i as int));
                    proof {
                        assert(before.push(text@).drop_last() =~= before);
                    }
                    if !result.as_str().is_empty() {
                        result.append("\n");
                    }
                    result.append(text.as_str());
                    proof {
                        assert(result@ =~= joined(before.push(text@)));
                    }
                }
            }
            i = i + 1;
        }
        proof {
            assert(blocks.take(i as int) =~= blocks);
        }
    }
    result
}

/// The texts of blocks put one after the other are the texts of the one and of the other.
pub proof fn law_parts_of_concatenation(a: Seq<crate::json::Json>, b: Seq<crate::json::Json>)
    ensures
        content_parts(a + b) == content_parts(a) + content_parts(b),
    decreases b.len(),
{
    if b.len() == 0 {
        assert(a + b =~= a);
        assert(content_parts(a) + content_parts(b) =~= content_parts(a));
    } else {
        law_parts_of_concatenation(a, b.drop_last());
        assert((a + b).drop_last() =~= a + b.drop_last());
        assert((a + b).last() == b.last());
        assert(content_parts(a + b) =~= content_parts(a) + content_parts(b));
    }
}

/// Lines put one after the other join to the two joined texts with a line break between.
proof fn lemma_joined_concatenation(a: Seq<Seq<char>>, b: Seq<Seq<char>>)
    requires
        a.len() > 0,
        b.len() > 0,
    ensures
        joined(a + b) == joined(a) + "\n"@ + joined(b),
    decreases b.len(),
{
    assert((a + b).drop_last() =~= a + b.drop_last());
    assert((a + b).last() == b.last());
    if b.len() == 1 {
        assert(a + b.drop_last() =~= a);
    } else {
        lemma_joined_concatenation(a, b.drop_last());
    }
    assert(joined(a + b) =~= joined(a) + "\n"@ + joined(b));
}

/// A string is its own plain text.
pub proof fn law_string_is_its_own_text(text: Seq<char>)
    ensures
        flattened(crate::json::Json::String(text)) == text,
{
}

/// The text of an array is empty exactly when no block contributes any.
pub proof fn law_empty_text(items: Seq<crate::json::Json>)
    ensures
        flattened(crate::json::Json::Array(items)).len() == 0 <==> forall|i: int|
            0 <= i < items.len() ==> match content_part(#[trigger] items[i]) {
                Some(text) => text.len() == 0,
                None => true,
            },
    decreases items.len(),
{
    lemma_parts_not_empty(items);
    lemma_joined_empty(content_parts(items));
    if items.len() > 0 {
        let init = items.drop_last();
        law_empty_text(init);
        lemma_parts_not_empty(init);
        lemma_joined_empty(content_parts(init));
        assert(items.last() == items[items.len() - 1]);
        assert(forall|i: int| 0 <= i < init.len() ==> #[trigger] init[i] == items[i]);
        assert(forall|i: int|
            0 <= i < items.len() ==> #[trigger] items[i] == if i < init.len() {
                init[i]
            } else {
                items.last()
            });
    }
}

/// The text of two arrays put one after the other is the text of the one and of the other,
/// with a line break between if neither is empty.
pub proof fn law_flattening_of_concatenation(
    a: Seq<crate::json::Json>,
    b: Seq<crate::json::Json>,
)
    ensures
        flattened(crate::json::Json::Array(a + b)) == {
            let first = flattened(crate::json::Json::Array(a));
            let second = flattened(crate::json::Json::Array(b));
            if first.len() == 0 {
                second
            } else if second.len() == 0 {
                first
            } else {
                first + "\n"@ + second
            }
        },
{
    law_parts_of_concatenation(a, b);
    lemma_parts_not_empty(a);
    lemma_parts_not_empty(b);
    lemma_joined_empty(content_parts(a));
    lemma_joined_empty(content_parts(b));
    if content_parts(a).len() == 0 {
        assert(content_parts(a) + content_parts(b) =~= content_parts(b));
    } else if content_parts(b).len() == 0 {
        assert(content_parts(a) + content_parts(b) =~= content_parts(a));
    } else {
        lemma_joined_concatenation(content_parts(a), content_parts(b));
    }
}

/// A block that contributes no text, or an empty one, leaves no trace.
pub proof fn law_silent_block_leaves_no_trace(
    a: Seq<crate::json::Json>,
    silent: crate::json::Json,
    b: Seq<crate::json::Json>,
)
    requires
        match content_part(silent) {
            Some(text) => text.len() == 0,
            None => true,
        },
    ensures
        flattened(crate::json::Json::Array(a + seq![silent] + b)) == flattened(
            crate::json::Json::Array(a + b),
        ),
{
    law_parts_of_concatenation(a + seq![silent], b);
    law_parts_of_concatenation(a, b);
    assert((a + seq![silent]).drop_last() =~= a);
}

/// A string among the blocks is its own text, and a block that is neither a string nor an object
/// gives none.
pub proof fn law_blocks_that_are_no_objects(item: crate::json::Json, text: Seq<char>)
    ensures
        content_part(crate::json::Json::String(text)) == Some(text),
        !(item is String) && !(item is Object) ==> content_part(item) is None,
{
}

/// A block gives the text under `text`, whatever else it holds, if it is of type `text` or
/// `input_text` or has no type that is a text.
pub proof fn law_text_blocks_give_their_text(
    members: Map<Seq<char>, crate::json::Json>,
    text: Seq<char>,
)
    requires
        members.contains_pair("text"@, crate::json::Json::String(text)),
        !(members.contains_key("type"@) && members["type"@] is String)
            || members["type"@] == crate::json::Json::String("text"@)
            || members["type"@] == crate::json::Json::String("input_text"@),
    ensures
        content_part(crate::json::Json::Object(members)) == Some(text),
{
}

/// A block gives no text if it is no tool call and either has no text under `text` or is of a
/// type that is neither `text` nor `input_text`.
pub proof fn law_other_blocks_give_nothing(members: Map<Seq<char>, crate::json::Json>)
    requires
        !members.contains_pair("type"@, crate::json::Json::String("tool_use"@)),
        !(members.contains_key("text"@) && members["text"@] is String) || (members.contains_key(
            "type"@,
        ) && members["type"@] is String && members["type"@] != crate::json::Json::String("text"@)
            && members["type"@] != crate::json::Json::String("input_text"@)),
    ensures
        content_part(crate::json::Json::Object(members)) is None,
{
}

/// A tool call is labelled with its name, or `unknown` without one, and with the description
/// among its inputs, whatever other members the call and its inputs have.
pub proof fn law_call_with_description(
    members: Map<Seq<char>, crate::json::Json>,
    input: Map<Seq<char>, crate::json::Json>,
    name: Seq<char>,
    description: Seq<char>,
)
    requires
        members.contains_pair("type"@, crate::json::Json::String("tool_use"@)),
        members.contains_pair("name"@, crate::json::Json::String(name)) || (!(members.contains_key(
            "name"@,
        ) && members["name"@] is String) && name == "unknown"@),
        members.contains_pair("input"@, crate::json::Json::Object(input)),
        input.contains_pair("description"@, crate::json::Json::String(description)),
    ensures
        tool_description(crate::json::Json::Object(members)) == description,
        description.len() > 0 ==> content_part(crate::json::Json::Object(members)) == Some(
            "[Tool: "@ + name + " - "@ + description + "]"@,
        ),
        description.len() == 0 ==> content_part(crate::json::Json::Object(members)) == Some(
            "[Tool: "@ + name + "]"@,
        ),
{
    crate::invocations::lemma_block_types_differ();
}

/// A tool call without a text for a description is labelled with the file path among its inputs,
/// whatever other members the call and its inputs have.
pub proof fn law_call_with_file_path(
    members: Map<Seq<char>, crate::json::Json>,
    input: Map<Seq<char>, crate::json::Json>,
    name: Seq<char>,
    file_path: Seq<char>,
)
    requires
        members.contains_pair("type"@, crate::json::Json::String("tool_use"@)),
        members.contains_pair("name"@, crate::json::Json::String(name)) || (!(members.contains_key(
            "name"@,
        ) && members["name"@] is String) && name == "unknown"@),
        members.contains_pair("input"@, crate::json::Json::Object(input)),
        !(input.contains_key("description"@) && input["description"@] is String),
        input.contains_pair("file_path"@, crate::json::Json::String(file_path)),
    ensures
        tool_description(crate::json::Json::Object(members)) == file_path,
        file_path.len() > 0 ==> content_part(crate::json::Json::Object(members)) == Some(
            "[Tool: "@ + name + " - "@ + file_path + "]"@,
        ),
        file_path.len() == 0 ==> content_part(crate::json::Json::Object(members)) == Some(
            "[Tool: "@ + name + "]"@,
        ),
{
    crate::invocations::lemma_block_types_differ();
}

/// A tool call with neither among its inputs, or without inputs, is labelled with its name alone,
/// whatever other members it has.
pub proof fn law_call_without_description(
    members: Map<Seq<char>, crate::json::Json>,
    name: Seq<char>,
)
    requires
        members.contains_pair("type"@, crate::json::Json::String("tool_use"@)),
        members.contains_pair("name"@, crate::json::Json::String(name)) || (!(members.contains_key(
            "name"@,
        ) && members["name"@] is String) && name == "unknown"@),
        members.contains_key("input"@) ==> match members["input"@] {
            crate::json::Json::Object(input) => !(input.contains_key("description"@)
                && input["description"@] is String) && !(input.contains_key("file_path"@)
                && input["file_path"@] is String),
            _ => true,
        },
    ensures
        tool_description(crate::json::Json::Object(members)).len() == 0,
        content_part(crate::json::Json::Object(members)) == Some("[Tool: "@ + name + "]"@),
{
    crate::invocations::lemma_block_types_differ();
}

/// The label of a tool call depends on nothing but its name and its inputs.
pub proof fn law_labels_ignore_other_members(
    a: Map<Seq<char>, crate::json::Json>,
    b: Map<Seq<char>, crate::json::Json>,
)
    requires
        a.contains_pair("type"@, crate::json::Json::String("tool_use"@)),
        b.contains_pair("type"@, crate::json::Json::String("tool_use"@)),
        a.contains_key("name"@) == b.contains_key("name"@),
        a.contains_key("name"@) ==> a["name"@] == b["name"@],
        a.contains_key("input"@) == b.contains_key("input"@),
        a.contains_key("input"@) ==> a["input"@] == b["input"@],
    ensures
        content_part(crate::json::Json::Object(a)) == content_part(crate::json::Json::Object(b)),
{
    crate::invocations::lemma_block_types_differ();
}

/// An array of one block flattens to the text of that block, and what is neither a string nor an
/// array, or is an array without blocks, to nothing.
pub proof fn law_flattening_of_few(item: crate::json::Json, content: crate::json::Json)
    ensures
        content_part(item) matches Some(text) ==> flattened(
            crate::json::Json::Array(seq![item]),
        ) == text,
        content_part(item) is None ==> flattened(crate::json::Json::Array(seq![item])).len() == 0,
        flattened(crate::json::Json::Array(Seq::empty())).len() == 0,
        !(content is String) && !(content is Array) ==> flattened(content).len() == 0,
{
    let blocks = seq![item];
    reveal_with_fuel(content_parts, 2);
    assert(blocks.drop_last() =~= Seq::empty());
    assert(blocks.last() == item);
    if let Some(text) = content_part(item) {
        if text.len() > 0 {
            assert(content_parts(blocks) =~= seq![text]);
        } else {
            assert(content_parts(blocks) =~= Seq::empty());
            assert(text =~= Seq::empty());
        }
    }
}

/// Lines join with one line break between each two: none joins to nothing, one to itself, and two
/// runs of lines to their two joined texts with a line break between.
pub proof fn law_joining_lines(line: Seq<char>, a: Seq<Seq<char>>, b: Seq<Seq<char>>)
    ensures
        joined(Seq::empty()).len() == 0,
        joined(seq![line]) == line,
        a.len() > 0 && b.len() > 0 ==> joined(a + b) == joined(a) + "\n"@ + joined(b),
{
    if a.len() > 0 && b.len() > 0 {
        lemma_joined_concatenation(a, b);
    }
}

}
