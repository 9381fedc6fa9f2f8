use vstd::prelude::*;
use crate::json::{Json, same_json};

verus! {

/// One conversational turn.
pub struct ChatMessage {
    /// `system`, `user`, `assistant` or `tool`.
    pub role: String,
    pub content: String,
    /// Base64 image payloads, on user messages.
    pub images: Option<Vec<String>>,
    /// Tool call records, on assistant messages.
    pub tool_calls: Option<Vec<Json>>,
    /// The call this message answers, on tool messages.
    pub tool_call_id: Option<String>,
}

/// Sampling options. Fractional values are kept as their decimal text.
#[derive(Clone, Debug, PartialEq)]
pub struct ChatOptions {
    pub temperature: Option<String>,
    pub top_k: Option<i32>,
    pub top_p: Option<String>,
    pub max_tokens: Option<i32>,
}

/// Two messages with the same role, text, images, tool calls (as
/// `same_json` has it) and call id.
pub open spec fn same_message(a: ChatMessage, b: ChatMessage) -> bool {
    &&& b.role@ == a.role@
    &&& b.content@ == a.content@
    &&& match a.images {
        Some(x) => b.images matches Some(y) && y@.len() == x@.len()
            && forall|k: int| 0 <= k < x@.len() ==> (#[trigger] x@[k])@ == y@[k]@,
        None => b.images is None,
    }
    &&& match a.tool_calls {
        Some(x) => b.tool_calls matches Some(y) && y@.len() == x@.len()
            && forall|k: int| 0 <= k < x@.len() ==> same_json(#[trigger] x@[k], y@[k]),
        None => b.tool_calls is None,
    }
    &&& match a.tool_call_id {
        Some(x) => b.tool_call_id matches Some(y) && y@ == x@,
        None => b.tool_call_id is None,
    }
}

impl ChatMessage {
    /// A copy of this message.
    pub fn duplicate(&self) -> (r: ChatMessage)
        ensures
            same_message(*self, r),
    {
        let calls = match &self.tool_calls {
            Some(cs) => {
                let mut v: Vec<Json> = Vec::new();
                let mut i: usize = 0;
                while i < cs.len()
                    invariant
                        i <= cs@.len(),
                        v@.len() == i,
                        forall|k: int| 0 <= k < i ==> same_json(#[trigger] cs@[k], v@[k]),
                    decreases cs@.len() - i,
                {
                    v.push(cs[i].duplicate());
                    i = i + 1;
                }
                Some(v)
            },
            None => None,
        };
        let images = match &self.images {
            Some(xs) => {
                let mut v: Vec<String> = Vec::new();
                let mut i: usize = 0;
                while i < xs.len()
                    invariant
                        i <= xs@.len(),
                        v@.len() == i,
                        forall|k: int| 0 <= k < i ==> (#[trigger] xs@[k])@ == v@[k]@,
                    decreases xs@.len() - i,
                {
                    v.push(xs[i].clone());
                    i = i + 1;
                }
                Some(v)
            },
            None => None,
        };
        let id = match &self.tool_call_id {
            Some(t) => Some(t.clone()),
            None => None,
        };
        ChatMessage {
            role: self.role.clone(),
            content: self.content.clone(),
            images,
            tool_calls: calls,
            tool_call_id: id,
        }
    }

    /// A message with a role and text and nothing else.
    pub fn plain(role: String, content: String) -> (r: ChatMessage)
        ensures
            r.role@ == role@,
            r.content@ == content@,
            r.images is None,
            r.tool_calls is None,
            r.tool_call_id is None,
    {
        ChatMessage { role, content, images: None, tool_calls: None, tool_call_id: None }
    }
}

} // verus!
