//! Tool and skill invocations in message content.
use vstd::prelude::*;
use vstd::string::*;

use crate::json::Value;
use crate::text::same_text;
use crate::types::NormalizedInvocation;

verus! {

/// The invocation that a content block stands for: a tool call that has a name.
pub open spec fn block_invocation(item: crate::json::Json) -> Option<crate::types::Invocation> {
    if item.get_str("type"@) != Some("tool_use"@) {
        None
    } else {
        match item.get_str("name"@) {
            Some(name) => Some(
                crate::types::Invocation {
                    kind: "tool"@,
                    name,
                    raw_name: None,
                    call_id: item.get_str("id"@),
                    arguments: item.get("input"@),
                },
            ),
            None => None,
        }
    }
}

/// The invocations that a sequence of content blocks stands for, in their order.
pub open spec fn block_invocations(items: Seq<crate::json::Json>) -> Seq<crate::types::Invocation>
    decreases items.len(),
{
    if items.len() == 0 {
        Seq::empty()
    } else {
        match block_invocation(items.last()) {
            Some(invocation) => block_invocations(items.drop_last()).push(invocation),
            None => block_invocations(items.drop_last()),
        }
    }
}

/// The invocations in a message's content.
pub open spec fn content_invocations(content: crate::json::Json) -> Seq<crate::types::Invocation> {
    match content {
        crate::json::Json::Array(items) => block_invocations(items),
        _ => Seq::empty(),
    }
}

/// The argument under which a tool that wraps skills names the skill.
pub open spec fn skill_key(tool: Seq<char>) -> Option<Seq<char>> {
    if tool == "skill"@ || tool == "load_skill"@ {
        Some("name"@)
    } else {
        None
    }
}

/// The skill that an invocation wraps, if it calls a wrapper and names a skill.
pub open spec fn wrapped_skill(invocation: crate::types::Invocation) -> Option<Seq<char>> {
    match (skill_key(invocation.name), invocation.arguments) {
        (Some(key), Some(arguments)) => arguments.get_str(key),
        _ => None,
    }
}

/// An invocation with the skill that it wraps, if any, taken out of its wrapper.
pub open spec fn unwrapped(invocation: crate::types::Invocation) -> crate::types::Invocation {
    match wrapped_skill(invocation) {
        Some(skill) => crate::types::Invocation {
            kind: "skill"@,
            name: skill,
            raw_name: Some(invocation.name),
            ..invocation
        },
        None => invocation,
    }
}

/// The invocation that a content block stands for, if any.
fn extract_invocation(item: &Value) -> (r: Option<NormalizedInvocation>)
    ensures
        r is None <==> block_invocation(item@) is None,
        r matches Some(invocation) ==> block_invocation(item@) == Some(invocation@),
{
    let tool_use = match item.get_str("type") {
        Some(t) => same_text(t, "tool_use"),
        None => false,
    };
    if !tool_use {
        return None;
    }
    let name = match item.get_str("name") {
        Some(name) => name.to_owned(),
        None => {
            return None;
        },
    };
    let call_id = match item.get_str("id") {
        Some(id) => Some(id.to_owned()),
        None => None,
    };
    let arguments = match item.get("input") {
        Some(input) => Some(input.clone()),
        None => None,
    };
    Some(
        NormalizedInvocation { kind: "tool".to_owned(), name, raw_name: None, call_id, arguments },
    )
}

/// Extracts the invocations from an array of content blocks: every named tool call, as
/// `kind: "tool"`. Wrappers are left as they are; [`unwrap_skill_invocations`] opens them.
#[must_use]
pub fn extract_invocations_from_content_blocks(val: &Value) -> (r: Vec<NormalizedInvocation>)
    ensures
        crate::types::invocations_view(r@) == content_invocations(val@),
{
    let mut invocations: Vec<NormalizedInvocation> = Vec::new();
    if let Some(items) = val.as_array() {
        let ghost blocks = crate::json::items_view(items@);
        let mut i: usize = 0;
        proof {
            crate::json::lemma_items_view(items@);
            assert(crate::types::invocations_view(invocations@) =~= block_invocations(
                blocks.take(0),
            ));
        }
        while i < items.len()
            invariant
                i <= items.len(),
                blocks.len() == items.len(),
                forall|j: int| 0 <= j < items.len() ==> #[trigger] blocks[j] == items[j]@,
                crate::types::invocations_view(invocations@) == block_invocations(
                    blocks.take(i as int),
                ),
            decreases items.len() - i,
        {
            let ghost before = invocations@;
            proof {
                assert(blocks.take(i + 1).drop_last() =~= blocks.take(i as int));
                assert(blocks.take(i + 1).last() == items[i as int]@);
            }
            if let Some(invocation) = extract_invocation(&items[i]) {
                invocations.push(invocation);
                proof {
                    assert(crate::types::invocations_view(invocations@)
                        =~= crate::types::invocations_view(before).push(invocation@));
                }
            }
            i = i + 1;
        }
        proof {
            assert(blocks.take(i as int) =~= blocks);
        }
    } else {
        proof {
            assert(crate::types::invocations_view(invocations@) =~= Seq::empty());
        }
    }
    invocations
}

/// The argument under which a tool that wraps skills names the skill.
fn skill_argument(tool: &str) -> (r: Option<&'static str>)
    ensures
        crate::json::text_view(r) == skill_key(tool@),
{
    if same_text(tool, "skill") || same_text(tool, "load_skill") {
        Some("name")
    } else {
        None
    }
}

/// The skill that an invocation wraps, if any.
fn find_wrapped_skill(invocation: &NormalizedInvocation) -> (r: Option<String>)
    ensures
        crate::types::string_view(r) == wrapped_skill(invocation@),
{
    match (skill_argument(invocation.name.as_str()), &invocation.arguments) {
        (Some(key), Some(arguments)) => match arguments.get_str(key) {
            Some(skill) => Some(skill.to_owned()),
            None => None,
        },
        _ => None,
    }
}

/// Takes skills out of their wrappers, in place.
///
/// `skill` and `load_skill` are wrappers whose real name lies among the arguments. A call of
/// one becomes `kind: "skill"` with that name, and keeps the wrapper's name as `raw_name`.
/// Other invocations are left unchanged.
pub fn unwrap_skill_invocations(invocations: &mut Vec<NormalizedInvocation>)
    ensures
        final(invocations)@.len() == old(invocations)@.len(),
        forall|i: int|
            0 <= i < old(invocations)@.len() ==> (#[trigger] final(invocations)@[i])@ == unwrapped(
                old(invocations)@[i]@,
            ),
        forall|i: int|
            0 <= i < old(invocations)@.len() && wrapped_skill(old(invocations)@[i]@) is None
                ==> #[trigger] final(invocations)@[i] == old(invocations)@[i],
{
    let ghost before = invocations@;
    let mut i: usize = 0;
    while i < invocations.len()
        invariant
            i <= invocations.len(),
            before == old(invocations)@,
            invocations.len() == before.len(),
            forall|j: int|
                0 <= j < i ==> (#[trigger] invocations@[j])@ == unwrapped(before[j]@),
            forall|j: int|
                0 <= j < i && wrapped_skill(before[j]@) is None ==> #[trigger] invocations@[j]
                    == before[j],
            forall|j: int| i <= j < before.len() ==> #[trigger] invocations@[j] == before[j],
        decreases invocations.len() - i,
    {
        if let Some(skill) = find_wrapped_skill(&invocations[i]) {
            let wrapper = invocations[i].name.clone();
            invocations[i].raw_name = Some(wrapper);
            invocations[i].name = skill;
            invocations[i].kind = "skill".to_owned();
        }
        i = i + 1;
    }
}

/// The invocations of blocks put one after the other are those of the one and of the other.
pub proof fn law_invocations_of_concatenation(a: Seq<crate::json::Json>, b: Seq<crate::json::Json>)
    ensures
        content_invocations(crate::json::Json::Array(a + b)) == content_invocations(
            crate::json::Json::Array(a),
        ) + content_invocations(crate::json::Json::Array(b)),
    decreases b.len(),
{
    if b.len() == 0 {
        assert(a + b =~= a);
        assert(block_invocations(a) + block_invocations(b) =~= block_invocations(a));
    } else {
        law_invocations_of_concatenation(a, b.drop_last());
        assert((a + b).drop_last() =~= a + b.drop_last());
        assert((a + b).last() == b.last());
        assert(block_invocations(a + b) =~= block_invocations(a) + block_invocations(b));
    }
}

/// What is extracted is a tool, under the name that the source gave, and is the invocation of
/// one of the blocks. Wrappers of skills are no exception.
pub proof fn law_extracted_are_plain_tools(items: Seq<crate::json::Json>, i: int)
    requires
        0 <= i < content_invocations(crate::json::Json::Array(items)).len(),
    ensures
        content_invocations(crate::json::Json::Array(items))[i].kind == "tool"@,
        content_invocations(crate::json::Json::Array(items))[i].raw_name is None,
        exists|j: int|
            0 <= j < items.len() && block_invocation(#[trigger] items[j]) == Some(
                content_invocations(crate::json::Json::Array(items))[i],
            ),
    decreases items.len(),
{
    let init = items.drop_last();
    if i < block_invocations(init).len() {
        law_extracted_are_plain_tools(init, i);
        let j = choose|j: int|
            0 <= j < init.len() && block_invocation(#[trigger] init[j]) == Some(
                block_invocations(init)[i],
            );
        assert(items[j] == init[j]);
        assert(block_invocations(items)[i] == block_invocations(init)[i]);
    } else {
        assert(items.last() == items[items.len() - 1]);
    }
}

/// Every named tool call among the blocks is extracted.
pub proof fn law_every_named_call_is_extracted(items: Seq<crate::json::Json>, j: int)
    requires
        0 <= j < items.len(),
        items[j].get_str("type"@) == Some("tool_use"@),
        items[j].get_str("name"@) is Some,
    ensures
        block_invocation(items[j]) is Some,
        content_invocations(crate::json::Json::Array(items)).contains(
            block_invocation(items[j])->0,
        ),
    decreases items.len(),
{
    let init = items.drop_last();
    let invocation = block_invocation(items[j])->0;
    if j < init.len() {
        law_every_named_call_is_extracted(init, j);
        let i = choose|i: int|
            0 <= i < block_invocations(init).len() && block_invocations(init)[i] == invocation;
        assert(block_invocations(items)[i] == invocation);
    } else {
        assert(block_invocations(items)[block_invocations(init).len() as int] == invocation);
    }
}

/// A block that an invocation is extracted from shows up in flattened text under the label of
/// the same name.
pub proof fn law_extracted_call_is_labelled(item: crate::json::Json)
    requires
        block_invocation(item) is Some,
    ensures
        crate::content::content_part(item) == Some(
            crate::content::tool_label(
                block_invocation(item)->0.name,
                crate::content::tool_description(item),
            ),
        ),
{
    lemma_block_types_differ();
}

/// The block types that the rules tell apart are different texts.
pub(crate) proof fn lemma_block_types_differ()
    ensures
        "tool_use"@ != "text"@,
        "tool_use"@ != "input_text"@,
{
    reveal_strlit("tool_use");
    reveal_strlit("text");
    reveal_strlit("input_text");
    assert("tool_use"@.len() == 8 && "text"@.len() == 4 && "input_text"@.len() == 10);
}

/// Unwrapping touches neither the identifier nor the arguments of a call.
pub proof fn law_unwrapping_keeps_the_call(invocation: crate::types::Invocation)
    ensures
        unwrapped(invocation).call_id == invocation.call_id,
        unwrapped(invocation).arguments == invocation.arguments,
{
}

/// What is unwrapped is a skill, and its `raw_name` tells the wrapper that it came in.
pub proof fn law_unwrapped_skill_is_traceable(invocation: crate::types::Invocation)
    requires
        wrapped_skill(invocation) is Some,
    ensures
        unwrapped(invocation).kind == "skill"@,
        unwrapped(invocation).name == wrapped_skill(invocation)->0,
        unwrapped(invocation).raw_name == Some(invocation.name),
        invocation.name == "skill"@ || invocation.name == "load_skill"@,
{
}

/// An invocation that calls no wrapper, or names no skill, is left unchanged.
pub proof fn law_other_invocations_are_unchanged(invocation: crate::types::Invocation)
    requires
        wrapped_skill(invocation) is None,
    ensures
        unwrapped(invocation) == invocation,
{
}

/// Unwrapping a second time changes nothing, unless the skill bears the name of the wrapper
/// that it did not come in.
pub proof fn law_unwrapping_twice(invocation: crate::types::Invocation)
    requires
        wrapped_skill(invocation) matches Some(skill) ==> skill == invocation.name || skill_key(
            skill,
        ) is None,
    ensures
        unwrapped(unwrapped(invocation)) == unwrapped(invocation),
{
}

/// After extraction and unwrapping an invocation is either a tool that came under its own name
/// or a skill whose wrapper is on record.
pub proof fn law_extracted_and_unwrapped(items: Seq<crate::json::Json>, i: int)
    requires
        0 <= i < content_invocations(crate::json::Json::Array(items)).len(),
    ensures
        ({
            let invocation = unwrapped(content_invocations(crate::json::Json::Array(items))[i]);
            ||| invocation.kind == "tool"@ && invocation.raw_name is None
            ||| invocation.kind == "skill"@ && (invocation.raw_name == Some("skill"@)
                || invocation.raw_name == Some("load_skill"@))
        }),
{
    law_extracted_are_plain_tools(items, i);
}

/// A tool call that has a name gives an invocation of kind `tool` with that name, with the text
/// under `id` for an identifier, and with the whole value under `input` for arguments, whatever
/// other members it has.
pub proof fn law_fields_of_an_extracted_call(
    members: Map<Seq<char>, crate::json::Json>,
    name: Seq<char>,
)
    requires
        members.contains_pair("type"@, crate::json::Json::String("tool_use"@)),
        members.contains_pair("name"@, crate::json::Json::String(name)),
    ensures
        block_invocation(crate::json::Json::Object(members)) is Some,
        ({
            let invocation = block_invocation(crate::json::Json::Object(members))->0;
            &&& invocation.kind == "tool"@
            &&& invocation.name == name
            &&& invocation.raw_name is None
            &&& forall|id: Seq<char>|
                invocation.call_id == Some(id) <==> #[trigger] members.contains_pair(
                    "id"@,
                    crate::json::Json::String(id),
                )
            &&& invocation.call_id is None <==> !(members.contains_key("id"@)
                && members["id"@] is String)
            &&& members.contains_key("input"@) ==> invocation.arguments == Some(members["input"@])
            &&& !members.contains_key("input"@) ==> invocation.arguments is None
        }),
{
}

/// A block that is no tool call, or has no text under `name`, gives no invocation.
pub proof fn law_other_blocks_give_no_invocation(
    item: crate::json::Json,
    members: Map<Seq<char>, crate::json::Json>,
)
    ensures
        !(item is Object) ==> block_invocation(item) is None,
        !members.contains_pair("type"@, crate::json::Json::String("tool_use"@))
            ==> block_invocation(crate::json::Json::Object(members)) is None,
        !(members.contains_key("name"@) && members["name"@] is String) ==> block_invocation(
            crate::json::Json::Object(members),
        ) is None,
{
}

/// An array of one block gives the invocation of that block and no other, and what is no array, or
/// is an array without blocks, gives none.
pub proof fn law_invocations_of_few(item: crate::json::Json, content: crate::json::Json)
    ensures
        block_invocation(item) matches Some(invocation) ==> content_invocations(
            crate::json::Json::Array(seq![item]),
        ) == seq![invocation],
        block_invocation(item) is None ==> content_invocations(
            crate::json::Json::Array(seq![item]),
        ).len() == 0,
        content_invocations(crate::json::Json::Array(Seq::empty())).len() == 0,
        !(content is Array) ==> content_invocations(content).len() == 0,
{
    let blocks = seq![item];
    reveal_with_fuel(block_invocations, 2);
    assert(blocks.drop_last() =~= Seq::empty());
    assert(blocks.last() == item);
    if let Some(invocation) = block_invocation(item) {
        assert(block_invocations(blocks) =~= seq![invocation]);
    }
}

/// Every call of `skill` or `load_skill` with a text under `name` among its arguments becomes the
/// skill of that name and keeps its old name as `raw_name`, whatever its kind, its identifier, its
/// former `raw_name` and its other arguments are.
pub proof fn law_every_wrapper_is_unwrapped(
    invocation: crate::types::Invocation,
    arguments: Map<Seq<char>, crate::json::Json>,
    skill: Seq<char>,
)
    requires
        invocation.name == "skill"@ || invocation.name == "load_skill"@,
        invocation.arguments == Some(crate::json::Json::Object(arguments)),
        arguments.contains_pair("name"@, crate::json::Json::String(skill)),
    ensures
        wrapped_skill(invocation) == Some(skill),
        unwrapped(invocation).kind == "skill"@,
        unwrapped(invocation).name == skill,
        unwrapped(invocation).raw_name == Some(invocation.name),
        unwrapped(invocation).call_id == invocation.call_id,
        unwrapped(invocation).arguments == invocation.arguments,
{
}

/// A call of anything else, and one without a text under `name` among its arguments, is left
/// unchanged, whatever its kind, its identifier and its `raw_name` are.
pub proof fn law_nothing_else_is_unwrapped(invocation: crate::types::Invocation)
    requires
        (invocation.name != "skill"@ && invocation.name != "load_skill"@) || !(
        invocation.arguments matches Some(crate::json::Json::Object(arguments))
            && arguments.contains_key("name"@) && arguments["name"@] is String),
    ensures
        wrapped_skill(invocation) is None,
        unwrapped(invocation) == invocation,
{
}

/// The wrappers are `skill` and `load_skill`, both of which name the skill under `name`.
pub proof fn law_wrappers(tool: Seq<char>)
    ensures
        skill_key("skill"@) == Some("name"@),
        skill_key("load_skill"@) == Some("name"@),
        tool != "skill"@ && tool != "load_skill"@ ==> skill_key(tool) is None,
{
}

}
