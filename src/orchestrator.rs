use vstd::prelude::*;
use crate::events::ProviderEvent;
use crate::json::{Json, field, field2, text_of, parse_json, parsed};
use crate::message::ChatMessage;
use crate::protocol::{CallToolResult, Content};
use crate::text::{chars_of, copy_text, join, push_char, slice_text};

verus! {

/// The most provider invocations in one conversation.
pub const MAX_LOOPS: u32 = 10;

/// The most characters of a tool result handed back to the model.
pub const MAX_RESULT_CHARS: usize = 8000;

/// What the conversation asks its caller to show the user.
pub enum UiEvent {
    StreamStart,
    Chunk { content: String, done: bool },
    ToolStart { tool: String, args: Json },
    Cancelled,
    Error(String),
    Complete,
}

pub open spec fn is_terminal(e: UiEvent) -> bool {
    e is Cancelled || e is Error || e is Complete
}

/// The ways a conversation ends.
#[derive(Clone, Debug, PartialEq)]
pub enum Ending {
    Cancelled,
    Failed,
    Completed,
    /// The invocation cap was reached.
    Capped,
}

/// What a chat command answers: whether the conversation succeeded, and
/// why not where it did not.
#[derive(Clone, Debug, PartialEq)]
pub struct ChatResponse {
    pub success: bool,
    pub error: Option<String>,
}

impl ChatResponse {
    /// The answer for a conversation's outcome: a failure carries `error`;
    /// completion, cancellation and the cap are successes; a conversation
    /// that has not ended is incomplete.
    pub fn of(outcome: Option<&Ending>, error: String) -> (r: ChatResponse)
        ensures
            outcome matches Some(Ending::Failed) ==> !r.success && (r.error matches Some(e) && e@ == error@),
            outcome is None ==> !r.success && (r.error matches Some(e) && e@ == "Stream incomplete"@),
            (outcome matches Some(e) && !(e is Failed)) ==> r.success && r.error is None,
    {
        match outcome {
            Some(Ending::Failed) => ChatResponse { success: false, error: Some(error) },
            Some(_) => ChatResponse { success: true, error: None },
            None => ChatResponse { success: false, error: Some(copy_text("Stream incomplete")) },
        }
    }
}

/// A tool call to run: the tool, its parsed arguments, and the call's id.
pub struct ToolRequest {
    pub name: String,
    pub arguments: Json,
    pub call_id: String,
}

/// What running one tool call came to.
#[derive(Clone, Debug, PartialEq)]
pub enum ToolOutcome {
    /// No server offers the tool.
    NoMapping,
    /// The server that offers it is not connected.
    NoClient(String),
    /// The call failed, with this message.
    Failed(String),
    Done(CallToolResult),
}

/// The decisions of one tool-augmented conversation. The caller runs the
/// provider and the tools and hands back what happened; the conversation
/// says what to show and what to do next.
pub struct Conversation {
    messages: Vec<ChatMessage>,
    loops: u32,
    content: String,
    calls: Vec<Json>,
    ending: Option<Ending>,
    shown: Ghost<Seq<UiEvent>>,
}

impl Conversation {
    /// The events shown so far, in order.
    pub closed spec fn log(&self) -> Seq<UiEvent> {
        self.shown@
    }

    /// Provider invocations so far.
    pub closed spec fn loops(&self) -> u32 {
        self.loops
    }

    pub closed spec fn ending(&self) -> Option<Ending> {
        self.ending
    }

    pub closed spec fn history(&self) -> Seq<ChatMessage> {
        self.messages@
    }

    /// The text streamed in the current turn.
    pub closed spec fn turn_text(&self) -> Seq<char> {
        self.content@
    }

    /// The tool calls collected in the current turn.
    pub closed spec fn turn_calls(&self) -> Seq<Json> {
        self.calls@
    }

    /// The start event comes first and only there; a terminal event comes at
    /// most once and only last; none has come while the conversation runs.
    pub open spec fn wf(&self) -> bool {
        &&& self.loops() <= MAX_LOOPS
        &&& self.log().len() >= 1
        &&& self.log()[0] is StreamStart
        &&& forall|i: int| 1 <= i < self.log().len() ==> !(#[trigger] self.log()[i] is StreamStart)
        &&& forall|i: int| 0 <= i < self.log().len() - 1 ==> !is_terminal(#[trigger] self.log()[i])
        &&& (self.ending() is None ==> !is_terminal(self.log().last()))
        &&& (self.ending() matches Some(Ending::Completed) ==> self.log().last() is Complete)
        &&& (self.ending() matches Some(Ending::Cancelled) ==> self.log().last() is Cancelled)
        &&& (self.ending() matches Some(Ending::Failed) ==> self.log().last() is Error)
        &&& (self.ending() matches Some(Ending::Capped) ==> self.loops() == MAX_LOOPS)
    }

    /// Starts a conversation on the given messages; the start event is to be shown.
    pub fn start(initial: Vec<ChatMessage>) -> (r: (Conversation, UiEvent))
        ensures
            r.0.wf(),
            r.0.log() == seq![r.1],
            r.1 is StreamStart,
            r.0.loops() == 0,
            r.0.ending() is None,
            r.0.history() == initial@,
    {
        let ghost first = seq![UiEvent::StreamStart];
        let c = Conversation {
            messages: initial,
            loops: 0,
            content: String::new(),
            calls: Vec::new(),
            ending: None,
            shown: Ghost(first),
        };
        (c, UiEvent::StreamStart)
    }

    /// The messages to hand to the provider.
    pub fn messages(&self) -> (r: &Vec<ChatMessage>)
        ensures
            r@ == self.history(),
    {
        &self.messages
    }

    /// How the conversation ended, if it has.
    pub fn outcome(&self) -> (r: Option<&Ending>)
        ensures
            r matches Some(e) ==> self.ending() == Some(*e),
            r is None ==> self.ending() is None,
    {
        match &self.ending {
            Some(e) => Some(e),
            None => None,
        }
    }

    /// Before each provider invocation. Returns whether to invoke the provider,
    /// and the event to show. At the cap the conversation stops silently; on
    /// cancellation it ends as cancelled.
    pub fn begin_turn(&mut self, cancelled: bool) -> (r: (bool, Option<UiEvent>))
        requires
            old(self).wf(),
        ensures
            final(self).wf(),
            old(self).ending() is Some ==> r == (false, None::<UiEvent>) && *final(self) == *old(self),
            old(self).ending() is None && old(self).loops() >= MAX_LOOPS ==> !r.0 && r.1 is None
                && final(self).ending() == Some(Ending::Capped) && final(self).log() == old(self).log(),
            old(self).ending() is None && old(self).loops() < MAX_LOOPS && cancelled ==>
                !r.0 && (r.1 matches Some(e) && e is Cancelled)
                && final(self).ending() == Some(Ending::Cancelled)
                && final(self).log() == old(self).log().push(UiEvent::Cancelled),
            old(self).ending() is None && old(self).loops() < MAX_LOOPS && !cancelled ==>
                r.0 && r.1 is None && final(self).loops() == old(self).loops() + 1
                && final(self).ending() is None && final(self).log() == old(self).log()
                && final(self).turn_text().len() == 0 && final(self).turn_calls().len() == 0
                && final(self).history() == old(self).history(),
            r.0 ==> old(self).loops() < MAX_LOOPS,
    {
        if self.ending.is_some() {
            return (false, None);
        }
        if self.loops >= MAX_LOOPS {
            self.ending = Some(Ending::Capped);
            return (false, None);
        }
        if cancelled {
            self.ending = Some(Ending::Cancelled);
            self.shown = Ghost(self.shown@.push(UiEvent::Cancelled));
            return (false, Some(UiEvent::Cancelled));
        }
        self.loops = self.loops + 1;
        self.content = String::new();
        self.calls = Vec::new();
        (true, None)
    }

    /// One event from the provider's stream. Text is shown and kept; tool
    /// calls are kept; an error ends the conversation; usage is dropped.
    /// Once cancelled, nothing more is shown but the cancellation.
    pub fn on_event(&mut self, event: ProviderEvent, cancelled: bool) -> (r: Option<UiEvent>)
        requires
            old(self).wf(),
        ensures
            final(self).wf(),
            final(self).loops() == old(self).loops(),
            final(self).history() == old(self).history(),
            old(self).ending() is Some ==> r is None && *final(self) == *old(self),
            old(self).ending() is None && cancelled ==> (r matches Some(e) && e is Cancelled)
                && final(self).ending() == Some(Ending::Cancelled)
                && final(self).log() == old(self).log().push(UiEvent::Cancelled),
            old(self).ending() is None && !cancelled ==> match event {
                ProviderEvent::Content(s) => (r matches Some(UiEvent::Chunk { content, done })
                    && content@ == s@ && !done)
                    && final(self).log() == old(self).log().push(r.unwrap())
                    && final(self).ending() is None
                    && final(self).turn_text() == old(self).turn_text() + s@
                    && final(self).turn_calls() == old(self).turn_calls(),
                ProviderEvent::ToolCall(c) => r is None && final(self).log() == old(self).log()
                    && final(self).ending() is None
                    && final(self).turn_text() == old(self).turn_text()
                    && final(self).turn_calls() == old(self).turn_calls().push(c),
                ProviderEvent::Error(m) => (r matches Some(UiEvent::Error(x)) && x@ == m@)
                    && final(self).log() == old(self).log().push(r.unwrap())
                    && final(self).ending() == Some(Ending::Failed),
                ProviderEvent::Usage(_) => r is None && *final(self) == *old(self),
            },
    {
        if self.ending.is_some() {
            return None;
        }
        if cancelled {
            self.ending = Some(Ending::Cancelled);
            self.shown = Ghost(self.shown@.push(UiEvent::Cancelled));
            return Some(UiEvent::Cancelled);
        }
        match event {
            ProviderEvent::Content(s) => {
                self.content.append(s.as_str());
                let e = UiEvent::Chunk { content: s, done: false };
                self.shown = Ghost(self.shown@.push(e));
                Some(e)
            },
            ProviderEvent::ToolCall(c) => {
                self.calls.push(c);
                None
            },
            ProviderEvent::Error(m) => {
                self.ending = Some(Ending::Failed);
                let e = UiEvent::Error(m);
                self.shown = Ghost(self.shown@.push(e));
                Some(e)
            },
            ProviderEvent::Usage(_) => None,
        }
    }

    /// The provider could not be invoked: the conversation fails with `message`.
    pub fn on_provider_failure(&mut self, message: String) -> (r: Option<UiEvent>)
        requires
            old(self).wf(),
        ensures
            final(self).wf(),
            old(self).ending() is Some ==> r is None && *final(self) == *old(self),
            old(self).ending() is None ==> (r matches Some(UiEvent::Error(x)) && x@ == message@)
                && final(self).log() == old(self).log().push(r.unwrap())
                && final(self).ending() == Some(Ending::Failed),
    {
        if self.ending.is_some() {
            return None;
        }
        self.ending = Some(Ending::Failed);
        let e = UiEvent::Error(message);
        self.shown = Ghost(self.shown@.push(e));
        Some(e)
    }
}

} // verus!

verus! {

/// The decimal digit for `d < 10`.
pub open spec fn digit(d: nat) -> char {
    if d == 0 { '0' } else if d == 1 { '1' } else if d == 2 { '2' } else if d == 3 { '3' }
    else if d == 4 { '4' } else if d == 5 { '5' } else if d == 6 { '6' } else if d == 7 { '7' }
    else if d == 8 { '8' } else { '9' }
}

/// The decimal numeral of `n`.
pub open spec fn decimal(n: nat) -> Seq<char>
    decreases n,
{
    if n < 10 {
        seq![digit(n)]
    } else {
        decimal(n / 10).push(digit(n % 10))
    }
}

fn digit_char(d: usize) -> (r: char)
    requires
        d < 10,
    ensures
        r == digit(d as nat),
{
    if d == 0 { '0' } else if d == 1 { '1' } else if d == 2 { '2' } else if d == 3 { '3' }
    else if d == 4 { '4' } else if d == 5 { '5' } else if d == 6 { '6' } else if d == 7 { '7' }
    else if d == 8 { '8' } else { '9' }
}

/// Appends the decimal numeral of `n`.
pub fn push_decimal(s: &mut String, n: usize)
    ensures
        final(s)@ == old(s)@ + decimal(n as nat),
    decreases n,
{
    if n < 10 {
        push_char(s, digit_char(n));
        assert(seq![digit(n as nat)] =~= decimal(n as nat));
    } else {
        push_decimal(s, n / 10);
        push_char(s, digit_char(n % 10));
        assert(old(s)@ + decimal(n as nat / 10) + seq![digit(n as nat % 10)] =~= old(s)@ + decimal(n as nat));
    }
}

/// The index of the last newline among the first `k` characters, or -1.
pub open spec fn last_newline(s: Seq<char>, k: int) -> int
    decreases k,
{
    if k <= 0 {
        -1
    } else if s[k - 1] == '\n' {
        k - 1
    } else {
        last_newline(s, k - 1)
    }
}

/// Where an over-long result is cut: at its last newline within the limit,
/// else at the limit.
pub open spec fn cut_point(s: Seq<char>) -> int {
    let i = last_newline(s, MAX_RESULT_CHARS as int);
    if i >= 0 { i } else { MAX_RESULT_CHARS as int }
}

pub open spec fn truncation_notice(cut: nat, total: nat) -> Seq<char> {
    "\n\n[... Output truncated. Showing "@ + decimal(cut) + "/"@ + decimal(total)
        + " characters. Consider using more specific queries or filters to reduce output size.]"@
}

/// A tool result as handed back to the model: unchanged up to the limit,
/// else cut and followed by a notice.
pub open spec fn truncated(s: Seq<char>) -> Seq<char> {
    if s.len() > MAX_RESULT_CHARS {
        s.subrange(0, cut_point(s)) + truncation_notice(cut_point(s) as nat, s.len())
    } else {
        s
    }
}

proof fn lemma_last_newline_bounds(s: Seq<char>, k: int)
    requires
        0 <= k <= s.len(),
    ensures
        -1 <= last_newline(s, k) < k,
        last_newline(s, k) >= 0 ==> s[last_newline(s, k)] == '\n',
    decreases k,
{
    if k > 0 && s[k - 1] != '\n' {
        lemma_last_newline_bounds(s, k - 1);
    }
}

/// Limits a tool result to the allowed size.
pub fn truncate_result(text: &str) -> (r: String)
    ensures
        r@ == truncated(text@),
{
    let cs = chars_of(text);
    if cs.len() <= MAX_RESULT_CHARS {
        return copy_text(text);
    }
    let mut k: usize = MAX_RESULT_CHARS;
    while k > 0 && cs[k - 1] != '\n'
        invariant
            k <= MAX_RESULT_CHARS < cs@.len(),
            last_newline(cs@, k as int) == last_newline(cs@, MAX_RESULT_CHARS as int),
        decreases k,
    {
        k = k - 1;
    }
    let cut: usize = if k > 0 { k - 1 } else { MAX_RESULT_CHARS };
    proof {
        lemma_last_newline_bounds(cs@, MAX_RESULT_CHARS as int);
        assert(cut == cut_point(cs@));
    }
    let mut r = slice_text(cs.as_slice(), 0, cut);
    r.append("\n\n[... Output truncated. Showing ");
    push_decimal(&mut r, cut);
    r.append("/");
    push_decimal(&mut r, cs.len());
    r.append(" characters. Consider using more specific queries or filters to reduce output size.]");
    r
}

/// The text that a part contributes: a text part's text, a resource's
/// text; other parts contribute none.
pub open spec fn part_text(p: Content) -> Option<Seq<char>> {
    match p {
        Content::Text { text } => Some(text@),
        Content::Resource { text: Some(t), .. } => Some(t@),
        _ => None,
    }
}

/// Whether any of the parts contributes text.
pub open spec fn has_text(parts: Seq<Content>) -> bool {
    exists|i: int| 0 <= i < parts.len() && (#[trigger] part_text(parts[i])) is Some
}

/// The text of a result's parts: the texts of the parts that have one,
/// in order, separated by newlines.
pub open spec fn content_text(parts: Seq<Content>) -> Seq<char>
    decreases parts.len(),
{
    if parts.len() == 0 {
        Seq::empty()
    } else {
        let prev = content_text(parts.drop_last());
        match part_text(parts.last()) {
            Some(t) => if has_text(parts.drop_last()) { prev + seq!['\n'] + t } else { t },
            None => prev,
        }
    }
}

proof fn lemma_no_text(parts: Seq<Content>)
    requires
        !has_text(parts),
    ensures
        content_text(parts) == Seq::<char>::empty(),
    decreases parts.len(),
{
    if parts.len() > 0 {
        let p = parts.drop_last();
        assert(!has_text(p)) by {
            if has_text(p) {
                let j = choose|j: int| 0 <= j < p.len() && (#[trigger] part_text(p[j])) is Some;
                assert(parts[j] == p[j]);
            }
        }
        assert(part_text(parts[parts.len() - 1]) is None);
        lemma_no_text(p);
    }
}

/// Joins the textual parts of a tool result.
pub fn result_text(parts: &Vec<Content>) -> (r: String)
    ensures
        r@ == content_text(parts@),
{
    let mut r = String::new();
    let mut any = false;
    let mut i: usize = 0;
    while i < parts.len()
        invariant
            i <= parts@.len(),
            r@ == content_text(parts@.subrange(0, i as int)),
            any == has_text(parts@.subrange(0, i as int)),
        decreases parts@.len() - i,
    {
        let ghost pre = parts@.subrange(0, i as int);
        let ghost next = parts@.subrange(0, i + 1);
        assert(next.drop_last() =~= pre);
        assert(next.last() == parts@[i as int]);
        let piece: Option<&String> = match &parts[i] {
            Content::Text { text } => Some(text),
            Content::Resource { text: Some(t), .. } => Some(t),
            _ => None,
        };
        assert(match piece { Some(t) => part_text(parts@[i as int]) == Some(t@), None => part_text(parts@[i as int]) is None });
        match piece {
            Some(t) => {
                let ghost before = r@;
                proof {
                    if !any {
                        lemma_no_text(pre);
                    }
                }
                if any {
                    push_char(&mut r, '\n');
                }
                r.append(t.as_str());
                assert(any ==> r@ == before + seq!['\n'] + t@);
                assert(!any ==> r@ =~= t@);
                assert(has_text(next)) by {
                    assert(part_text(next[i as int]) is Some);
                }
                any = true;
            },
            None => {
                assert(has_text(next) == has_text(pre)) by {
                    if has_text(next) {
                        let j = choose|j: int| 0 <= j < next.len() && (#[trigger] part_text(next[j])) is Some;
                        assert(j < i);
                        assert(pre[j] == next[j]);
                    }
                    if has_text(pre) {
                        let j = choose|j: int| 0 <= j < pre.len() && (#[trigger] part_text(pre[j])) is Some;
                        assert(next[j] == pre[j]);
                    }
                }
            },
        }
        proof {
            if piece is Some {
                if has_text(pre) {
                    let j = choose|j: int| 0 <= j < pre.len() && (#[trigger] part_text(pre[j])) is Some;
                    assert(next[j] == pre[j]);
                }
            }
        }
        i = i + 1;
    }
    assert(parts@.subrange(0, parts@.len() as int) =~= parts@);
    r
}

/// The text of the tool message that answers a call of `tool`.
pub open spec fn outcome_text(tool: Seq<char>, outcome: ToolOutcome) -> Seq<char> {
    match outcome {
        ToolOutcome::NoMapping => "Error: No client found for tool "@ + tool,
        ToolOutcome::NoClient(c) => "Error: Client "@ + c@ + " not found"@,
        ToolOutcome::Failed(e) => "Error executing tool: "@ + e@,
        ToolOutcome::Done(res) => truncated(content_text(res.content@)),
    }
}

/// Words the outcome of a tool call for the model. A failing tool gives a
/// message that describes the failure.
pub fn tool_message_text(tool: &str, outcome: &ToolOutcome) -> (r: String)
    ensures
        r@ == outcome_text(tool@, *outcome),
{
    match outcome {
        ToolOutcome::NoMapping => join("Error: No client found for tool ", tool),
        ToolOutcome::NoClient(c) => {
            let mut r = join("Error: Client ", c.as_str());
            r.append(" not found");
            r
        },
        ToolOutcome::Failed(e) => join("Error executing tool: ", e.as_str()),
        ToolOutcome::Done(res) => {
            let t = result_text(&res.content);
            truncate_result(t.as_str())
        },
    }
}

} // verus!

verus! {

pub open spec fn text_or(t: Option<Seq<char>>, d: Seq<char>) -> Seq<char> {
    match t {
        Some(s) => s,
        None => d,
    }
}

/// The tool name, argument text and call id that a tool call record asks
/// for, where it has a `function` member.
pub open spec fn planned(c: Json) -> Option<(Seq<char>, Seq<char>, Seq<char>)> {
    if field(c, "function"@) is Some {
        Some((text_or(text_of(field2(c, "function"@, "name"@)), Seq::empty()),
            text_or(text_of(field2(c, "function"@, "arguments"@)), "{}"@),
            text_or(text_of(field(c, "id"@)), Seq::empty())))
    } else {
        None
    }
}

/// The arguments handed to a tool: the argument text parsed, or an empty
/// object where it does not parse.
pub open spec fn arguments_of(args: Seq<char>, v: Json) -> bool {
    match parsed(args) {
        Some(p) => v == p,
        None => v matches Json::Object(m) && m@.len() == 0,
    }
}

pub open spec fn request_matches(req: ToolRequest, c: Json) -> bool {
    planned(c) matches Some((name, args, id))
        && req.name@ == name && req.call_id@ == id && arguments_of(args, req.arguments)
}

/// The requests for those calls that have a `function` member, in order.
pub open spec fn plans_for(reqs: Seq<ToolRequest>, calls: Seq<Json>) -> bool
    decreases calls.len(),
{
    if calls.len() == 0 {
        reqs.len() == 0
    } else if planned(calls.last()) is Some {
        reqs.len() > 0 && request_matches(reqs.last(), calls.last())
            && plans_for(reqs.drop_last(), calls.drop_last())
    } else {
        plans_for(reqs, calls.drop_last())
    }
}

fn text_member_or(v: &Json, key: &str, default: &str) -> (r: String)
    ensures
        r@ == text_or(text_of(field(*v, key@)), default@),
{
    match v.get(key) {
        Some(x) => match x.as_str() {
            Some(s) => copy_text(s.as_str()),
            None => copy_text(default),
        },
        None => copy_text(default),
    }
}

/// The request for one tool call record, if it names a function.
pub fn plan_call(c: &Json) -> (r: Option<ToolRequest>)
    ensures
        r matches Some(req) ==> request_matches(req, *c),
        r is None ==> planned(*c) is None,
{
    match c.get("function") {
        Some(f) => {
            let name = text_member_or(f, "name", "");
            let args_text = text_member_or(f, "arguments", "{}");
            let call_id = text_member_or(c, "id", "");
            let arguments = match parse_json(args_text.as_str()) {
                Some(v) => v,
                None => Json::Object(Vec::new()),
            };
            proof { reveal_strlit(""); }
            assert(""@ =~= Seq::<char>::empty());
            assert(name@ == text_or(text_of(field2(*c, "function"@, "name"@)), Seq::empty()));
            assert(call_id@ == text_or(text_of(field(*c, "id"@)), Seq::empty()));
            assert(arguments_of(args_text@, arguments));
            Some(ToolRequest { name, arguments, call_id })
        },
        None => None,
    }
}

/// The requests for a turn's tool calls, in order; calls without a function are skipped.
pub fn plan_calls(calls: &Vec<Json>) -> (r: Vec<ToolRequest>)
    ensures
        plans_for(r@, calls@),
{
    let mut r: Vec<ToolRequest> = Vec::new();
    let mut i: usize = 0;
    while i < calls.len()
        invariant
            i <= calls@.len(),
            plans_for(r@, calls@.subrange(0, i as int)),
        decreases calls@.len() - i,
    {
        let ghost before = r@;
        assert(calls@.subrange(0, i + 1).drop_last() =~= calls@.subrange(0, i as int));
        assert(calls@.subrange(0, i + 1).last() == calls@[i as int]);
        match plan_call(&calls[i]) {
            Some(req) => {
                r.push(req);
                assert(r@.drop_last() =~= before);
            },
            None => {},
        }
        i = i + 1;
    }
    assert(calls@.subrange(0, calls@.len() as int) =~= calls@);
    r
}

impl Conversation {
    /// After the provider's stream ends. Without tool calls the conversation
    /// completes; with them the assistant message is kept and the calls to
    /// run are returned.
    pub fn end_turn(&mut self, cancelled: bool) -> (r: (Vec<UiEvent>, Vec<ToolRequest>))
        requires
            old(self).wf(),
        ensures
            final(self).wf(),
            final(self).loops() == old(self).loops(),
            old(self).ending() is Some ==> r.0@.len() == 0 && r.1@.len() == 0 && *final(self) == *old(self),
            old(self).ending() is None && cancelled ==> r.0@.len() == 1 && r.0@[0] is Cancelled
                && r.1@.len() == 0 && final(self).ending() == Some(Ending::Cancelled)
                && final(self).log() == old(self).log() + r.0@,
            old(self).ending() is None && !cancelled && old(self).turn_calls().len() == 0 ==>
                r.0@.len() == 2 && (r.0@[0] matches UiEvent::Chunk { content, done } && content@.len() == 0 && done)
                && r.0@[1] is Complete && r.1@.len() == 0
                && final(self).ending() == Some(Ending::Completed)
                && final(self).log() == old(self).log() + r.0@,
            old(self).ending() is None && !cancelled && old(self).turn_calls().len() > 0 ==>
                r.0@.len() == 0 && final(self).ending() is None && final(self).log() == old(self).log()
                && plans_for(r.1@, old(self).turn_calls())
                && final(self).history().len() == old(self).history().len() + 1
                && final(self).history().drop_last() == old(self).history()
                && final(self).history().last().role@ == "assistant"@
                && final(self).history().last().content@ == old(self).turn_text()
                && (final(self).history().last().tool_calls matches Some(v) && v@ == old(self).turn_calls())
                && final(self).history().last().images is None
                && final(self).history().last().tool_call_id is None,
    {
        if self.ending.is_some() {
            return (Vec::new(), Vec::new());
        }
        if cancelled {
            self.ending = Some(Ending::Cancelled);
            self.shown = Ghost(self.shown@.push(UiEvent::Cancelled));
            return (vec![UiEvent::Cancelled], Vec::new());
        }
        if self.calls.len() == 0 {
            self.ending = Some(Ending::Completed);
            let shown = vec![UiEvent::Chunk { content: String::new(), done: true }, UiEvent::Complete];
            self.shown = Ghost(self.shown@ + shown@);
            return (shown, Vec::new());
        }
        let requests = plan_calls(&self.calls);
        let mut calls: Vec<Json> = Vec::new();
        core::mem::swap(&mut calls, &mut self.calls);
        let mut content = String::new();
        core::mem::swap(&mut content, &mut self.content);
        let msg = ChatMessage {
            role: copy_text("assistant"),
            content,
            images: None,
            tool_calls: Some(calls),
            tool_call_id: None,
        };
        self.messages.push(msg);
        (Vec::new(), requests)
    }

    /// A tool is about to run with these arguments.
    pub fn announce(&mut self, tool: String, args: Json) -> (r: UiEvent)
        requires
            old(self).wf(),
            old(self).ending() is None,
        ensures
            final(self).wf(),
            r matches UiEvent::ToolStart { tool: t, args: a } && t@ == tool@ && a == args,
            final(self).log() == old(self).log().push(r),
            final(self).ending() is None,
            final(self).loops() == old(self).loops(),
            final(self).history() == old(self).history(),
    {
        let e = UiEvent::ToolStart { tool, args };
        self.shown = Ghost(self.shown@.push(e));
        e
    }

    /// Keeps the answer to call `call_id` of `tool`; a failed call is answered
    /// with a message that describes the failure.
    pub fn record_tool_result(&mut self, call_id: String, tool: &str, outcome: &ToolOutcome)
        requires
            old(self).wf(),
        ensures
            final(self).wf(),
            final(self).log() == old(self).log(),
            final(self).ending() == old(self).ending(),
            final(self).loops() == old(self).loops(),
            final(self).history().drop_last() == old(self).history(),
            final(self).history().len() == old(self).history().len() + 1,
            final(self).history().last().role@ == "tool"@,
            final(self).history().last().content@ == outcome_text(tool@, *outcome),
            final(self).history().last().tool_call_id matches Some(id) && id@ == call_id@,
            final(self).history().last().images is None,
            final(self).history().last().tool_calls is None,
    {
        let content = tool_message_text(tool, outcome);
        let msg = ChatMessage {
            role: copy_text("tool"),
            content,
            images: None,
            tool_calls: None,
            tool_call_id: Some(call_id),
        };
        self.messages.push(msg);
        assert(self.messages@.drop_last() =~= old(self).messages@);
    }
}

/// Loop termination: a conversation has invoked the provider at most
/// `MAX_LOOPS` times (`begin_turn` counts each invocation and invokes only
/// below the cap).
pub proof fn lemma_invocations_bounded(c: Conversation)
    requires
        c.wf(),
    ensures
        c.loops() <= MAX_LOOPS,
{
}

/// At most one terminal event is shown, and it is the last one shown.
pub proof fn lemma_single_terminal(c: Conversation, i: int, j: int)
    requires
        c.wf(),
        0 <= i < c.log().len(),
        0 <= j < c.log().len(),
        is_terminal(c.log()[i]),
        is_terminal(c.log()[j]),
    ensures
        i == j,
        i == c.log().len() - 1,
{
}

/// An ended conversation that was not stopped by the cap shows exactly one
/// terminal event, last.
pub proof fn lemma_terminal_shown(c: Conversation)
    requires
        c.wf(),
        c.ending() is Some,
        !(c.ending() matches Some(Ending::Capped)),
    ensures
        is_terminal(c.log().last()),
        forall|i: int| 0 <= i < c.log().len() - 1 ==> !is_terminal(#[trigger] c.log()[i]),
{
}

} // verus!

verus! {

proof fn lemma_last_newline_is_last(s: Seq<char>, k: int)
    requires
        0 <= k <= s.len(),
    ensures
        forall|j: int| last_newline(s, k) < j < k ==> s[j] != '\n',
    decreases k,
{
    if k > 0 && s[k - 1] != '\n' {
        lemma_last_newline_is_last(s, k - 1);
    }
}

/// Tool-result truncation: a result longer than the limit is cut at its
/// last newline within the limit (at the limit where it has none there),
/// and the notice follows; a result within the limit is unchanged.
pub proof fn lemma_truncation(s: Seq<char>)
    ensures
        s.len() <= MAX_RESULT_CHARS ==> truncated(s) == s,
        s.len() > MAX_RESULT_CHARS ==> ({
            let cut = cut_point(s);
            &&& 0 <= cut <= MAX_RESULT_CHARS
            &&& (cut < MAX_RESULT_CHARS ==> s[cut] == '\n')
            &&& forall|j: int| cut < j < MAX_RESULT_CHARS ==> s[j] != '\n'
            &&& (cut == MAX_RESULT_CHARS ==> forall|j: int| 0 <= j < MAX_RESULT_CHARS ==> s[j] != '\n')
            &&& truncated(s) == s.subrange(0, cut) + truncation_notice(cut as nat, s.len())
        }),
{
    if s.len() > MAX_RESULT_CHARS {
        lemma_last_newline_bounds(s, MAX_RESULT_CHARS as int);
        lemma_last_newline_is_last(s, MAX_RESULT_CHARS as int);
    }
}

} // verus!
