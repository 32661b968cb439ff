//! The records that connectors produce.
use vstd::prelude::*;

use crate::json::Value;

verus! {

/// One call of a tool or a skill, in the form that all connectors share.
#[derive(Debug)]
pub struct NormalizedInvocation {
    /// What is called: `"tool"` or `"skill"`.
    pub kind: String,
    /// The name of what is called.
    pub name: String,
    /// The name that the source gave, where `name` is another.
    pub raw_name: Option<String>,
    /// The identifier of the call.
    pub call_id: Option<String>,
    /// The arguments of the call.
    pub arguments: Option<Value>,
}

/// What an invocation means.
pub struct Invocation {
    pub kind: Seq<char>,
    pub name: Seq<char>,
    pub raw_name: Option<Seq<char>>,
    pub call_id: Option<Seq<char>>,
    pub arguments: Option<crate::json::Json>,
}

/// What an optional text means.
pub open spec fn string_view(text: Option<String>) -> Option<Seq<char>> {
    match text {
        Some(s) => Some(s@),
        None => None,
    }
}

impl View for NormalizedInvocation {
    type V = Invocation;

    open spec fn view(&self) -> Invocation {
        Invocation {
            kind: self.kind@,
            name: self.name@,
            raw_name: string_view(self.raw_name),
            call_id: string_view(self.call_id),
            arguments: match self.arguments {
                Some(value) => Some(value@),
                None => None,
            },
        }
    }
}

/// What each of a sequence of invocations means.
pub open spec fn invocations_view(invocations: Seq<NormalizedInvocation>) -> Seq<Invocation> {
    invocations.map_values(|invocation: NormalizedInvocation| invocation@)
}

/// An invocation means what its fields hold.
pub proof fn law_invocations_mean_what_they_hold(invocation: NormalizedInvocation)
    ensures
        invocation@.kind == invocation.kind@,
        invocation@.name == invocation.name@,
        invocation.raw_name is None <==> invocation@.raw_name is None,
        invocation.raw_name matches Some(s) ==> invocation@.raw_name == Some(s@),
        invocation.call_id is None <==> invocation@.call_id is None,
        invocation.call_id matches Some(s) ==> invocation@.call_id == Some(s@),
        invocation.arguments is None <==> invocation@.arguments is None,
        invocation.arguments matches Some(value) ==> invocation@.arguments == Some(value@),
{
}

/// A sequence of invocations means the meanings of its invocations, in their order.
pub proof fn law_sequences_mean_their_invocations(invocations: Seq<NormalizedInvocation>)
    ensures
        invocations_view(invocations).len() == invocations.len(),
        forall|i: int|
            0 <= i < invocations.len() ==> #[trigger] invocations_view(invocations)[i]
                == invocations[i]@,
{
}

/// An optional text means its characters, if there is one.
pub proof fn law_optional_strings_mean_their_text(s: String)
    ensures
        string_view(Some(s)) == Some(s@),
        string_view(None) is None,
{
}

}
