//! OpenAI-compatible chat-completions decisions (`/v1/*`): trimming the
//! history to the context budget, JSON-mode and tool-use instructions,
//! and reading tool calls out of a reply.

use vstd::prelude::*;
use vstd::utf8::encode_utf8;
use crate::json::{Json, json_text, json_to_string};
use crate::npurun::manifest::{ChatMessage, ChatRole};
use crate::server::tool_calls::{ToolCall, calls_are, parse_tool_calls, reply_calls};
use crate::text::{owned, str_eq};

verus! {

/// Input budget, in estimated tokens, of a chat transcript (4096
/// context minus room for the reply).
pub const DEFAULT_INPUT_TOKEN_BUDGET: usize = 3000;

/// A function the client offers the model.
pub struct ToolFunction {
    /// Function name.
    pub name: String,
    /// What it does.
    pub description: Option<String>,
    /// JSON schema of its parameters.
    pub parameters: Option<Json>,
}

/// An OpenAI `tools[]` entry.
pub struct ToolSpec {
    /// Always `function` in practice.
    pub kind: String,
    /// The function offered.
    pub function: ToolFunction,
}

// ---------------------------------------------------------------------
// Message views
// ---------------------------------------------------------------------

/// Role and text of a message.
pub open spec fn msg_view(m: ChatMessage) -> (ChatRole, Seq<char>) {
    (m.role, m.content@)
}

/// Role and text of each message.
pub open spec fn msg_views(ms: Seq<ChatMessage>) -> Seq<(ChatRole, Seq<char>)> {
    ms.map_values(|m: ChatMessage| msg_view(m))
}

/// Index of the first system message.
pub open spec fn first_system_index(vs: Seq<(ChatRole, Seq<char>)>) -> Option<int>
    decreases vs.len(),
{
    if vs.len() == 0 {
        None
    } else if first_system_index(vs.drop_last()) is Some {
        first_system_index(vs.drop_last())
    } else if vs.last().0 == ChatRole::System {
        Some(vs.len() - 1)
    } else {
        None
    }
}

/// The first system message index is in range and names a system message.
pub proof fn lemma_first_system_index(vs: Seq<(ChatRole, Seq<char>)>)
    ensures
        match first_system_index(vs) {
            Some(i) => 0 <= i < vs.len() && vs[i].0 == ChatRole::System && forall|j: int|
                0 <= j < i ==> vs[j].0 != ChatRole::System,
            None => forall|j: int| 0 <= j < vs.len() ==> vs[j].0 != ChatRole::System,
        },
    decreases vs.len(),
{
    if vs.len() > 0 {
        lemma_first_system_index(vs.drop_last());
        assert forall|j: int| 0 <= j < vs.len() - 1 implies vs[j] == vs.drop_last()[j] by {}
    }
}

/// Position of the first system message.
fn find_first_system(messages: &Vec<ChatMessage>) -> (r: Option<usize>)
    ensures
        match r {
            Some(x) => first_system_index(msg_views(messages@)) == Some(x as int),
            None => first_system_index(msg_views(messages@)) is None,
        },
{
    let ghost vs = msg_views(messages@);
    proof {
        lemma_first_system_index(vs);
    }
    let mut found: Option<usize> = None;
    let mut j: usize = 0;
    while found.is_none() && j < messages.len()
        invariant
            vs == msg_views(messages@),
            j <= messages@.len(),
            match found {
                Some(x) => first_system_index(vs) == Some(x as int),
                None => forall|q: int| 0 <= q < j ==> vs[q].0 != ChatRole::System,
            },
        decreases messages@.len() - j,
    {
        proof {
            lemma_first_system_index(vs);
            assert(vs[j as int] == msg_view(messages@[j as int]));
        }
        if messages[j].role == ChatRole::System {
            found = Some(j);
        }
        j = j + 1;
    }
    found
}

// ---------------------------------------------------------------------
// Token estimates and trimming
// ---------------------------------------------------------------------

/// Estimated token cost of a message: a quarter of its UTF-8 length plus
/// eight tokens of template overhead.
pub open spec fn msg_cost(v: (ChatRole, Seq<char>)) -> int {
    ((encode_utf8(v.1).len() as usize) / 4 + 8) as int
}

/// Estimated cost of a whole history.
pub open spec fn total_cost(vs: Seq<(ChatRole, Seq<char>)>) -> int
    decreases vs.len(),
{
    if vs.len() == 0 {
        0
    } else {
        total_cost(vs.drop_last()) + msg_cost(vs.last())
    }
}

/// Estimated cost of the last `k` messages.
pub open spec fn suffix_cost(vs: Seq<(ChatRole, Seq<char>)>, k: int) -> int
    decreases k,
{
    if k <= 0 {
        0
    } else {
        msg_cost(vs[vs.len() - k]) + suffix_cost(vs, k - 1)
    }
}

/// `a - b`, or 0 when that is negative.
pub open spec fn sat_sub(a: int, b: int) -> int {
    if b > a {
        0
    } else {
        a - b
    }
}

/// How many of the most recent messages of `rest` are kept under
/// `budget`, counting on from `k` already kept: more while the next older
/// one still fits, and always the latest one.
pub open spec fn fit_count(rest: Seq<(ChatRole, Seq<char>)>, budget: int, k: int) -> int
    decreases rest.len() - k,
{
    if k >= rest.len() {
        rest.len() as int
    } else if k >= 1 && suffix_cost(rest, k + 1) > budget {
        k
    } else {
        fit_count(rest, budget, k + 1)
    }
}

/// Keeping the last `k` of `rest` is right under `budget`: the longest
/// suffix that fits, but never less than the latest message.
pub open spec fn kept_ok(rest: Seq<(ChatRole, Seq<char>)>, budget: int, k: int) -> bool {
    if rest.len() == 0 {
        k == 0
    } else {
        &&& 1 <= k <= rest.len()
        &&& (k == 1 || suffix_cost(rest, k) <= budget)
        &&& (k < rest.len() ==> suffix_cost(rest, k + 1) > budget)
    }
}

/// The history without its first system message.
pub open spec fn non_system_rest(vs: Seq<(ChatRole, Seq<char>)>) -> Seq<(ChatRole, Seq<char>)> {
    match first_system_index(vs) {
        Some(i) => vs.remove(i),
        None => vs,
    }
}

/// The first system message, as a zero- or one-element prefix.
pub open spec fn system_prefix(vs: Seq<(ChatRole, Seq<char>)>) -> Seq<(ChatRole, Seq<char>)> {
    match first_system_index(vs) {
        Some(i) => seq![vs[i]],
        None => Seq::empty(),
    }
}

/// The budget left for the other messages once the system message is kept.
pub open spec fn rest_budget(vs: Seq<(ChatRole, Seq<char>)>, max_input_tokens: int) -> int {
    match first_system_index(vs) {
        Some(i) => sat_sub(max_input_tokens, msg_cost(vs[i])),
        None => max_input_tokens,
    }
}

/// A history trimmed to `max_input_tokens`, and whether anything was
/// dropped: one that fits is kept whole; otherwise the first system
/// message, then the most recent messages that fit what is left.
pub open spec fn trim_views(vs: Seq<(ChatRole, Seq<char>)>, max_input_tokens: int) -> (
    Seq<(ChatRole, Seq<char>)>,
    bool,
) {
    if total_cost(vs) <= max_input_tokens {
        (vs, false)
    } else {
        let rest = non_system_rest(vs);
        let k = fit_count(rest, rest_budget(vs, max_input_tokens), 0);
        (system_prefix(vs) + rest.skip(rest.len() - k), true)
    }
}

/// Every message costs at least eight tokens.
proof fn lemma_cost_pos(v: (ChatRole, Seq<char>))
    ensures
        msg_cost(v) >= 8,
{
}

/// From `k` on, what `fit_count` keeps is the longest suffix that fits
/// (at least one message).
proof fn lemma_fit_count(rest: Seq<(ChatRole, Seq<char>)>, budget: int, k: int)
    requires
        0 <= k <= rest.len(),
        k >= 2 ==> suffix_cost(rest, k) <= budget,
    ensures
        kept_ok(rest, budget, fit_count(rest, budget, k)),
        k <= fit_count(rest, budget, k),
    decreases rest.len() - k,
{
    if k < rest.len() && !(k >= 1 && suffix_cost(rest, k + 1) > budget) {
        lemma_fit_count(rest, budget, k + 1);
    }
}

/// Trimming keeps the first system message and the longest run of most
/// recent other messages that fits the budget left, never fewer than one;
/// a history that fits is not trimmed.
pub proof fn lemma_trim_keeps_longest_fitting_suffix(
    vs: Seq<(ChatRole, Seq<char>)>,
    max_input_tokens: int,
)
    ensures
        total_cost(vs) <= max_input_tokens ==> trim_views(vs, max_input_tokens) == (vs, false),
        total_cost(vs) > max_input_tokens ==> ({
            let rest = non_system_rest(vs);
            let r = trim_views(vs, max_input_tokens).0;
            let k = r.len() - system_prefix(vs).len();
            &&& trim_views(vs, max_input_tokens).1
            &&& kept_ok(rest, rest_budget(vs, max_input_tokens), k)
            &&& r == system_prefix(vs) + rest.skip(rest.len() - k)
        }),
{
    let rest = non_system_rest(vs);
    lemma_fit_count(rest, rest_budget(vs, max_input_tokens), 0);
}

/// Estimated token cost of one message (`len / 4 + 8`).
pub fn estimate_message_tokens(msg: &ChatMessage) -> (r: usize)
    ensures
        r == msg_cost(msg_view(*msg)),
{
    msg.content.as_str().len() / 4 + 8
}

/// Trim a history to `max_input_tokens` estimated tokens: a history that
/// fits is returned unchanged with `false`; otherwise the first system
/// message is kept, then the longest run of most recent messages that fits
/// the rest of the budget (at least the latest one), with `true`.
pub fn trim_messages_for_context(messages: Vec<ChatMessage>, max_input_tokens: usize) -> (r: (
    Vec<ChatMessage>,
    bool,
))
    ensures
        (msg_views(r.0@), r.1) == trim_views(msg_views(messages@), max_input_tokens as int),
        total_cost(msg_views(messages@)) <= max_input_tokens ==> r.0@ == messages@,
{
    let ghost vs = msg_views(messages@);
    let mut total: u128 = 0;
    let mut i: usize = 0;
    while i < messages.len()
        invariant
            vs == msg_views(messages@),
            i <= messages@.len(),
            total == total_cost(vs.take(i as int)),
            total <= i * 4611686018427387912,
        decreases messages@.len() - i,
    {
        proof {
            assert(vs.take(i + 1).drop_last() =~= vs.take(i as int));
            assert(vs.take(i + 1).last() == vs[i as int]);
        }
        let c = estimate_message_tokens(&messages[i]);
        total = total + c as u128;
        i = i + 1;
    }
    proof {
        assert(vs.take(vs.len() as int) =~= vs);
    }
    if total <= max_input_tokens as u128 {
        return (messages, false);
    }
    let ghost ms = messages@;
    proof {
        lemma_first_system_index(vs);
    }
    let mut rest = messages;
    let sys_idx = find_first_system(&rest);
    let system_msg: Option<ChatMessage> = match sys_idx {
        Some(x) => Some(rest.remove(x)),
        None => None,
    };
    let ghost rs = msg_views(rest@);
    proof {
        match sys_idx {
            Some(x) => {
                assert(rest@ =~= ms.remove(x as int));
                assert(rs =~= vs.remove(x as int));
            },
            None => {},
        }
        assert(rs == non_system_rest(vs));
    }
    let budget: usize = match &system_msg {
        Some(m) => {
            let c = estimate_message_tokens(m);
            if c > max_input_tokens {
                0
            } else {
                max_input_tokens - c
            }
        },
        None => max_input_tokens,
    };
    proof {
        assert(budget == rest_budget(vs, max_input_tokens as int));
    }
    let n = rest.len();
    let mut cur = budget;
    let mut k: usize = 0;
    let mut done = false;
    while !done && k < n
        invariant
            rs == msg_views(rest@),
            n == rs.len(),
            k <= n,
            k == 0 ==> cur == budget,
            k >= 1 ==> cur == sat_sub(budget as int, suffix_cost(rs, k as int)),
            k >= 2 ==> suffix_cost(rs, k as int) <= budget,
            !done ==> fit_count(rs, budget as int, 0) == fit_count(rs, budget as int, k as int),
            done ==> fit_count(rs, budget as int, 0) == k,
        decreases n - k + (if done { 0int } else { 1int }),
    {
        let c = estimate_message_tokens(&rest[n - 1 - k]);
        proof {
            lemma_cost_pos(rs[n - 1 - k]);
            assert(suffix_cost(rs, k + 1) == c + suffix_cost(rs, k as int));
        }
        if c > cur && k > 0 {
            done = true;
        } else {
            cur = if c > cur {
                0
            } else {
                cur - c
            };
            k = k + 1;
        }
    }
    proof {
        assert(fit_count(rs, budget as int, 0) == k);
    }
    let kept = rest.split_off(n - k);
    let mut result: Vec<ChatMessage> = Vec::new();
    match system_msg {
        Some(s) => result.push(s),
        None => {},
    }
    let mut kept = kept;
    result.append(&mut kept);
    proof {
        assert(msg_views(result@) =~= system_prefix(vs) + rs.skip(rs.len() - k));
    }
    (result, true)
}

// ---------------------------------------------------------------------
// JSON mode and tool instructions
// ---------------------------------------------------------------------

/// Append `hint` to the first system message (after a blank line), or
/// open the history with a system message holding just `hint`.
pub open spec fn with_system_hint(vs: Seq<(ChatRole, Seq<char>)>, hint: Seq<char>) -> Seq<
    (ChatRole, Seq<char>),
> {
    match first_system_index(vs) {
        Some(i) => vs.update(i, (ChatRole::System, vs[i].1 + "\n\n"@ + hint)),
        None => seq![(ChatRole::System, hint)] + vs,
    }
}

/// The instruction JSON mode adds.
pub open spec fn json_mode_hint() -> Seq<char> {
    "You must respond with valid JSON only. Do not include explanations, prose, code fences, or markdown \u{2014} output only the raw JSON object."@
}

/// Merge `hint` into the first system message, or prepend one.
fn merge_system_hint(messages: Vec<ChatMessage>, hint: &str) -> (r: Vec<ChatMessage>)
    ensures
        msg_views(r@) == with_system_hint(msg_views(messages@), hint@),
{
    let ghost ms = msg_views(messages@);
    proof {
        lemma_first_system_index(ms);
    }
    let mut out = messages;
    match find_first_system(&out) {
        Some(x) => {
            let mut c = owned(out[x].content.as_str());
            c.append("\n\n");
            c.append(hint);
            out.set(x, ChatMessage { role: ChatRole::System, content: c });
            proof {
                assert(msg_views(out@) =~= with_system_hint(ms, hint@));
            }
        },
        None => {
            out.insert(0, ChatMessage { role: ChatRole::System, content: owned(hint) });
            proof {
                assert(msg_views(out@) =~= with_system_hint(ms, hint@));
            }
        },
    }
    out
}

/// JSON mode: ask the model, through the system message, for valid JSON
/// only.
pub fn augment_for_json_mode(messages: Vec<ChatMessage>) -> (r: Vec<ChatMessage>)
    ensures
        msg_views(r@) == with_system_hint(msg_views(messages@), json_mode_hint()),
{
    merge_system_hint(
        messages,
        "You must respond with valid JSON only. Do not include explanations, prose, code fences, or markdown \u{2014} output only the raw JSON object.",
    )
}

/// The fixed opening of the tool-use instruction.
pub open spec fn tools_hint_header() -> Seq<char> {
    "You have access to the following tools. When you need to call one, output a single line of EXACTLY this form, and nothing else:\n<tool_call>{\"name\": \"<tool_name>\", \"arguments\": {<json args>}}</tool_call>\n\nExample \u{2014} to call get_current_time with no arguments:\n<tool_call>{\"name\": \"get_current_time\", \"arguments\": {}}</tool_call>\n\nRules:\n- The tag name MUST be literally \"tool_call\", not the tool name.\n- Do not wrap the line in code fences or add prose.\n- After the user replies with the tool result, you may answer normally.\n\nAvailable tools:\n"@
}

/// The instruction line describing one tool.
pub open spec fn tool_line(t: ToolSpec) -> Seq<char> {
    let desc = match t.function.description {
        Some(d) => d@,
        None => Seq::empty(),
    };
    let params = match t.function.parameters {
        Some(p) => json_text(p),
        None => "{}"@,
    };
    "- "@ + t.function.name@ + ": "@ + desc + "\n  parameters: "@ + params + "\n"@
}

/// The lines of all tools, in order.
pub open spec fn tool_lines(ts: Seq<ToolSpec>) -> Seq<char>
    decreases ts.len(),
{
    if ts.len() == 0 {
        Seq::empty()
    } else {
        tool_lines(ts.drop_last()) + tool_line(ts.last())
    }
}

/// Tool use: describe each tool in the system message and ask for a
/// single `<tool_call>` line; no tools, no change.
pub fn augment_for_tools(messages: Vec<ChatMessage>, tools: &[ToolSpec]) -> (r: Vec<ChatMessage>)
    ensures
        tools@.len() == 0 ==> r@ == messages@,
        tools@.len() > 0 ==> msg_views(r@) == with_system_hint(
            msg_views(messages@),
            tools_hint_header() + tool_lines(tools@),
        ),
{
    if tools.len() == 0 {
        return messages;
    }
    let mut hint = owned(
        "You have access to the following tools. When you need to call one, output a single line of EXACTLY this form, and nothing else:\n<tool_call>{\"name\": \"<tool_name>\", \"arguments\": {<json args>}}</tool_call>\n\nExample \u{2014} to call get_current_time with no arguments:\n<tool_call>{\"name\": \"get_current_time\", \"arguments\": {}}</tool_call>\n\nRules:\n- The tag name MUST be literally \"tool_call\", not the tool name.\n- Do not wrap the line in code fences or add prose.\n- After the user replies with the tool result, you may answer normally.\n\nAvailable tools:\n",
    );
    let mut i: usize = 0;
    while i < tools.len()
        invariant
            i <= tools@.len(),
            hint@ == tools_hint_header() + tool_lines(tools@.take(i as int)),
        decreases tools@.len() - i,
    {
        proof {
            assert(tools@.take(i + 1).drop_last() =~= tools@.take(i as int));
            assert(tools@.take(i + 1).last() == tools@[i as int]);
        }
        let t = &tools[i];
        hint.append("- ");
        hint.append(t.function.name.as_str());
        hint.append(": ");
        match &t.function.description {
            Some(d) => hint.append(d.as_str()),
            None => {},
        }
        hint.append("\n  parameters: ");
        match &t.function.parameters {
            Some(p) => {
                let s = json_to_string(p);
                hint.append(s.as_str());
            },
            None => hint.append("{}"),
        }
        hint.append("\n");
        proof {
            assert(hint@ =~= tools_hint_header() + tool_lines(tools@.take(i + 1)));
        }
        i = i + 1;
    }
    proof {
        assert(tools@.take(tools@.len() as int) =~= tools@);
    }
    merge_system_hint(messages, hint.as_str())
}

// ---------------------------------------------------------------------
// Requests
// ---------------------------------------------------------------------

/// A message as the client sent it.
pub struct RequestMessage {
    /// `system`, `user`, `assistant` or `tool` (others are ignored).
    pub role: String,
    /// Message text, if any.
    pub content: Option<String>,
    /// For a `tool` message, the call it answers.
    pub tool_call_id: Option<String>,
}

/// The parts of a `/v1/chat/completions` request that decide what is
/// run (sampling parameters are accepted but not used).
pub struct ChatRequest {
    /// Model name the client asked for.
    pub model: Option<String>,
    /// The conversation.
    pub messages: Vec<RequestMessage>,
    /// Stream the reply as server-sent events.
    pub stream: bool,
    /// Reply budget, in tokens.
    pub max_tokens: Option<u32>,
    /// The `type` of `response_format` (`json_object` turns on JSON mode).
    pub response_format: Option<String>,
    /// Tools the model may call.
    pub tools: Option<Vec<ToolSpec>>,
}

/// What the server will run for an accepted request.
pub struct ChatPlan {
    /// The transcript handed to the engine.
    pub messages: Vec<ChatMessage>,
    /// Whether older turns were dropped to fit the context.
    pub trimmed: bool,
    /// Whether the reply is read for tool calls.
    pub tools_enabled: bool,
    /// Model name reported back to the client.
    pub model_name: String,
    /// Stream the reply.
    pub stream: bool,
    /// Reply budget, in tokens.
    pub max_tokens: Option<u32>,
}

/// Why a request is refused with `400 Bad Request`.
#[derive(Debug, PartialEq, Eq, Structural)]
pub enum ChatRejection {
    /// Tools were offered with `stream: true`.
    ToolsRequireBlocking,
    /// No user turn is left in the transcript.
    NoUserMessage,
}

impl ChatRejection {
    /// The error message sent to the client.
    pub fn message(&self) -> (r: &'static str)
        ensures
            r@ == match self {
                ChatRejection::ToolsRequireBlocking => "tool calls require stream=false in this version"@,
                ChatRejection::NoUserMessage => "no user message in request"@,
            },
    {
        match self {
            ChatRejection::ToolsRequireBlocking => "tool calls require stream=false in this version",
            ChatRejection::NoUserMessage => "no user message in request",
        }
    }
}

/// The text of an optional string, empty when absent.
pub open spec fn text_or_empty(s: Option<String>) -> Seq<char> {
    match s {
        Some(t) => t@,
        None => Seq::empty(),
    }
}

/// A client message as the engine sees it, when its role is known: a
/// tool result becomes a user turn
/// `<tool_result tool_call_id="ID">TEXT</tool_result>`.
pub open spec fn request_message_view(m: RequestMessage) -> Option<(ChatRole, Seq<char>)> {
    let content = text_or_empty(m.content);
    if m.role@ == "system"@ {
        Some((ChatRole::System, content))
    } else if m.role@ == "user"@ {
        Some((ChatRole::User, content))
    } else if m.role@ == "assistant"@ {
        Some((ChatRole::Assistant, content))
    } else if m.role@ == "tool"@ {
        Some(
            (
                ChatRole::User,
                "<tool_result tool_call_id=\""@ + text_or_empty(m.tool_call_id) + "\">"@ + content
                    + "</tool_result>"@,
            ),
        )
    } else {
        None
    }
}

/// The messages of a request the engine sees, in order.
pub open spec fn request_views(ms: Seq<RequestMessage>) -> Seq<(ChatRole, Seq<char>)>
    decreases ms.len(),
{
    if ms.len() == 0 {
        Seq::empty()
    } else {
        let prev = request_views(ms.drop_last());
        match request_message_view(ms.last()) {
            Some(v) => prev.push(v),
            None => prev,
        }
    }
}

/// The engine's view of two runs of messages is the view of the first
/// followed by the view of the second.
pub proof fn lemma_request_views_concat(a: Seq<RequestMessage>, b: Seq<RequestMessage>)
    ensures
        request_views(a + b) == request_views(a) + request_views(b),
    decreases b.len(),
{
    if b.len() == 0 {
        assert(a + b =~= a);
        assert(request_views(a) + request_views(b) =~= request_views(a));
    } else {
        lemma_request_views_concat(a, b.drop_last());
        assert((a + b).drop_last() =~= a + b.drop_last());
        assert((a + b).last() == b.last());
        match request_message_view(b.last()) {
            Some(v) => {
                assert(request_views(a) + request_views(b) =~= (request_views(a) + request_views(
                    b.drop_last(),
                )).push(v));
            },
            None => {},
        }
    }
}

/// Every system, user or assistant message of a request reaches the
/// engine with its role and its text (empty when it has none), in its
/// place: after what the messages before it become and before what the
/// messages after it become.
pub proof fn lemma_known_roles_kept_in_place(ms: Seq<RequestMessage>, i: int)
    requires
        0 <= i < ms.len(),
    ensures
        ms[i].role@ == "system"@ ==> request_views(ms) == request_views(ms.take(i)) + seq![
            (ChatRole::System, text_or_empty(ms[i].content)),
        ] + request_views(ms.skip(i + 1)),
        ms[i].role@ == "user"@ ==> request_views(ms) == request_views(ms.take(i)) + seq![
            (ChatRole::User, text_or_empty(ms[i].content)),
        ] + request_views(ms.skip(i + 1)),
        ms[i].role@ == "assistant"@ ==> request_views(ms) == request_views(ms.take(i)) + seq![
            (ChatRole::Assistant, text_or_empty(ms[i].content)),
        ] + request_views(ms.skip(i + 1)),
{
    assert(ms =~= ms.take(i) + seq![ms[i]] + ms.skip(i + 1));
    lemma_request_views_concat(ms.take(i) + seq![ms[i]], ms.skip(i + 1));
    lemma_request_views_concat(ms.take(i), seq![ms[i]]);
    let one = seq![ms[i]];
    assert(one.drop_last() =~= Seq::<RequestMessage>::empty());
    assert(one.last() == ms[i]);
    assert(request_views(one.drop_last()) =~= Seq::<(ChatRole, Seq<char>)>::empty());
    assert("system"@ != "user"@) by {
        reveal_strlit("system");
        reveal_strlit("user");
        assert("system"@.len() != "user"@.len());
    }
    assert("system"@ != "assistant"@) by {
        reveal_strlit("system");
        reveal_strlit("assistant");
        assert("system"@.len() != "assistant"@.len());
    }
    assert("user"@ != "assistant"@) by {
        reveal_strlit("user");
        reveal_strlit("assistant");
        assert("user"@.len() != "assistant"@.len());
    }
    if request_message_view(ms[i]) is Some {
        let v = request_message_view(ms[i]).unwrap();
        assert(request_views(one) =~= seq![v]);
    }
}

/// A request without tools or JSON mode whose history fits the input
/// budget is planned with exactly its messages, untrimmed.
pub proof fn lemma_plain_request_kept_whole(req: ChatRequest)
    requires
        !has_tools(req),
        !wants_json(req),
        total_cost(request_views(req.messages@)) <= DEFAULT_INPUT_TOKEN_BUDGET,
    ensures
        trim_views(prepared_views(req), DEFAULT_INPUT_TOKEN_BUDGET as int) == (
            request_views(req.messages@),
            false,
        ),
{
    lemma_trim_keeps_longest_fitting_suffix(
        prepared_views(req),
        DEFAULT_INPUT_TOKEN_BUDGET as int,
    );
}

/// The request offers at least one tool.
pub open spec fn has_tools(req: ChatRequest) -> bool {
    match req.tools {
        Some(t) => t@.len() > 0,
        None => false,
    }
}

/// The tools offered.
pub open spec fn tool_list(req: ChatRequest) -> Seq<ToolSpec> {
    match req.tools {
        Some(t) => t@,
        None => Seq::empty(),
    }
}

/// The request asks for JSON mode.
pub open spec fn wants_json(req: ChatRequest) -> bool {
    match req.response_format {
        Some(k) => k@ == "json_object"@,
        None => false,
    }
}

/// The transcript before trimming: the request's messages, with the tool
/// instruction when tools are offered, then the JSON-mode instruction.
pub open spec fn prepared_views(req: ChatRequest) -> Seq<(ChatRole, Seq<char>)> {
    let conv = request_views(req.messages@);
    let with_tools = if has_tools(req) {
        with_system_hint(conv, tools_hint_header() + tool_lines(tool_list(req)))
    } else {
        conv
    };
    if wants_json(req) {
        with_system_hint(with_tools, json_mode_hint())
    } else {
        with_tools
    }
}

/// Some message is a user turn.
pub open spec fn has_user(vs: Seq<(ChatRole, Seq<char>)>) -> bool {
    exists|i: int| 0 <= i < vs.len() && (#[trigger] vs[i]).0 == ChatRole::User
}

/// The model name reported back: the request's, else the server's, else
/// `fallback`.
pub open spec fn reported_model(
    req_model: Option<String>,
    server_model: Option<String>,
    fallback: Seq<char>,
) -> Seq<char> {
    match req_model {
        Some(m) => m@,
        None => match server_model {
            Some(m) => m@,
            None => fallback,
        },
    }
}

/// The model name to report: the request's, else the server's, else
/// `fallback`.
pub fn pick_model_name(
    req_model: &Option<String>,
    server_model: &Option<String>,
    fallback: &str,
) -> (r: String)
    ensures
        r@ == reported_model(*req_model, *server_model, fallback@),
{
    match req_model {
        Some(m) => owned(m.as_str()),
        None => match server_model {
            Some(m) => owned(m.as_str()),
            None => owned(fallback),
        },
    }
}

/// Convert one client message.
pub fn convert_message(m: &RequestMessage) -> (r: Option<ChatMessage>)
    ensures
        match r {
            Some(c) => request_message_view(*m) == Some(msg_view(c)),
            None => request_message_view(*m) is None,
        },
{
    let content = match &m.content {
        Some(c) => owned(c.as_str()),
        None => String::new(),
    };
    let role = m.role.as_str();
    if str_eq(role, "system") {
        Some(ChatMessage { role: ChatRole::System, content })
    } else if str_eq(role, "user") {
        Some(ChatMessage { role: ChatRole::User, content })
    } else if str_eq(role, "assistant") {
        Some(ChatMessage { role: ChatRole::Assistant, content })
    } else if str_eq(role, "tool") {
        let mut t = owned("<tool_result tool_call_id=\"");
        match &m.tool_call_id {
            Some(id) => t.append(id.as_str()),
            None => {},
        }
        t.append("\">");
        t.append(content.as_str());
        t.append("</tool_result>");
        Some(ChatMessage { role: ChatRole::User, content: t })
    } else {
        None
    }
}

/// Convert a request's messages, dropping those of unknown roles.
pub fn convert_messages(ms: &Vec<RequestMessage>) -> (r: Vec<ChatMessage>)
    ensures
        msg_views(r@) == request_views(ms@),
{
    let mut out: Vec<ChatMessage> = Vec::new();
    let mut i: usize = 0;
    while i < ms.len()
        invariant
            i <= ms@.len(),
            msg_views(out@) == request_views(ms@.take(i as int)),
        decreases ms@.len() - i,
    {
        proof {
            assert(ms@.take(i + 1).drop_last() =~= ms@.take(i as int));
            assert(ms@.take(i + 1).last() == ms@[i as int]);
        }
        match convert_message(&ms[i]) {
            Some(c) => {
                out.push(c);
                proof {
                    assert(msg_views(out@) =~= request_views(ms@.take(i + 1)));
                }
            },
            None => {},
        }
        i = i + 1;
    }
    proof {
        assert(ms@.take(ms@.len() as int) =~= ms@);
    }
    out
}

/// Does the transcript hold a user turn?
fn contains_user(ms: &Vec<ChatMessage>) -> (r: bool)
    ensures
        r == has_user(msg_views(ms@)),
{
    let ghost vs = msg_views(ms@);
    let mut i: usize = 0;
    while i < ms.len()
        invariant
            vs == msg_views(ms@),
            i <= ms@.len(),
            forall|j: int| 0 <= j < i ==> vs[j].0 != ChatRole::User,
        decreases ms@.len() - i,
    {
        proof {
            assert(vs[i as int] == msg_view(ms@[i as int]));
        }
        if ms[i].role == ChatRole::User {
            return true;
        }
        i = i + 1;
    }
    false
}

/// Decide what to run for a chat-completions request: refuse tools with
/// streaming; convert the messages; add the tool and JSON-mode
/// instructions; trim to the input budget; refuse a transcript without
/// a user turn; name the model (the request's, the server's, `npurun`).
pub fn plan_chat_completion(req: ChatRequest, server_model: Option<String>) -> (r: Result<
    ChatPlan,
    ChatRejection,
>)
    ensures
        has_tools(req) && req.stream ==> r == Err::<ChatPlan, ChatRejection>(
            ChatRejection::ToolsRequireBlocking,
        ),
        !(has_tools(req) && req.stream) ==> ({
            let (vs, t) = trim_views(prepared_views(req), DEFAULT_INPUT_TOKEN_BUDGET as int);
            if has_user(vs) {
                &&& r matches Ok(p)
                &&& msg_views(p.messages@) == vs
                &&& p.trimmed == t
                &&& p.tools_enabled == has_tools(req)
                &&& p.model_name@ == reported_model(req.model, server_model, "npurun"@)
                &&& p.stream == req.stream
                &&& p.max_tokens == req.max_tokens
            } else {
                r == Err::<ChatPlan, ChatRejection>(ChatRejection::NoUserMessage)
            }
        }),
{
    let tools_enabled = match &req.tools {
        Some(t) => t.len() > 0,
        None => false,
    };
    if tools_enabled && req.stream {
        return Err(ChatRejection::ToolsRequireBlocking);
    }
    let mut messages = convert_messages(&req.messages);
    if tools_enabled {
        match &req.tools {
            Some(t) => {
                messages = augment_for_tools(messages, t.as_slice());
            },
            None => {},
        }
    }
    let json_mode = match &req.response_format {
        Some(k) => str_eq(k.as_str(), "json_object"),
        None => false,
    };
    if json_mode {
        messages = augment_for_json_mode(messages);
    }
    let (messages, trimmed) = trim_messages_for_context(messages, DEFAULT_INPUT_TOKEN_BUDGET);
    if !contains_user(&messages) {
        return Err(ChatRejection::NoUserMessage);
    }
    let model_name = pick_model_name(&req.model, &server_model, "npurun");
    Ok(
        ChatPlan {
            messages,
            trimmed,
            tools_enabled,
            model_name,
            stream: req.stream,
            max_tokens: req.max_tokens,
        },
    )
}

// ---------------------------------------------------------------------
// Replies
// ---------------------------------------------------------------------

/// The assistant message of a non-streaming reply.
pub struct ChatReply {
    /// Plain content, when the reply is not a tool call.
    pub content: Option<String>,
    /// The calls the model made.
    pub tool_calls: Option<Vec<ToolCall>>,
    /// `stop` or `tool_calls`.
    pub finish_reason: &'static str,
}

/// Shape the model's full reply: when tools were offered and the reply
/// makes calls, those calls (finish reason `tool_calls`); otherwise the
/// text itself (finish reason `stop`).
pub fn finish_chat_reply(text: String, tools_enabled: bool) -> (r: ChatReply)
    ensures
        tools_enabled && reply_calls(text@).len() > 0 ==> {
            &&& r.content is None
            &&& r.tool_calls matches Some(v) && calls_are(v@, reply_calls(text@))
            &&& r.finish_reason@ == "tool_calls"@
        },
        !(tools_enabled && reply_calls(text@).len() > 0) ==> {
            &&& r.content matches Some(c) && c@ == text@
            &&& r.tool_calls is None
            &&& r.finish_reason@ == "stop"@
        },
{
    let parsed = if tools_enabled {
        parse_tool_calls(text.as_str())
    } else {
        None
    };
    match parsed {
        Some(calls) => ChatReply { content: None, tool_calls: Some(calls), finish_reason: "tool_calls" },
        None => ChatReply { content: Some(text), tool_calls: None, finish_reason: "stop" },
    }
}

/// The ids `/v1/models` advertises for the loaded model: its bare name
/// and its `:latest` form; none when no model is loaded.
pub fn advertised_model_ids(model_name: &Option<String>) -> (r: Vec<String>)
    ensures
        match model_name {
            Some(n) => r@.len() == 2 && r@[0]@ == n@ && r@[1]@ == n@ + ":latest"@,
            None => r@.len() == 0,
        },
{
    let mut out: Vec<String> = Vec::new();
    match model_name {
        Some(n) => {
            out.push(owned(n.as_str()));
            let mut tagged = owned(n.as_str());
            tagged.append(":latest");
            out.push(tagged);
        },
        None => {},
    }
    out
}

// ---------------------------------------------------------------------
// Streaming budget
// ---------------------------------------------------------------------

/// What to do with a streamed chunk.
#[derive(Debug, PartialEq, Eq, Structural)]
pub enum ChunkAction {
    /// The stream was already cut off: drop the chunk.
    Skip,
    /// The reply budget is spent: stop the engine and drop the chunk.
    Abort,
    /// Send the chunk to the client.
    Forward,
}

/// The state of a streamed reply against its character budget (about
/// four characters per requested token).
pub struct StreamBudget {
    /// Character budget, when the client set `max_tokens`.
    pub max_chars: Option<usize>,
    /// Characters seen so far (saturating).
    pub total_chars: usize,
    /// Whether the stream has been cut off.
    pub aborted: bool,
}

/// `a + b`, capped at `usize::MAX`.
pub open spec fn sat_add_usize(a: int, b: int) -> int {
    if a + b > usize::MAX {
        usize::MAX as int
    } else {
        a + b
    }
}

impl StreamBudget {
    /// A fresh budget of `max_tokens * 4` characters (saturating).
    pub fn new(max_tokens: Option<u32>) -> (r: Self)
        ensures
            r.max_chars == match max_tokens {
                Some(t) => Some(
                    if t * 4 > usize::MAX {
                        usize::MAX
                    } else {
                        (t * 4) as usize
                    },
                ),
                None => None::<usize>,
            },
            r.total_chars == 0,
            !r.aborted,
    {
        let max_chars = match max_tokens {
            Some(t) => {
                let t = t as usize;
                Some(
                    if t > usize::MAX / 4 {
                        usize::MAX
                    } else {
                        t * 4
                    },
                )
            },
            None => None,
        };
        StreamBudget { max_chars, total_chars: 0, aborted: false }
    }

    /// Account for a chunk of `len` bytes: skip it once cut off; cut off
    /// (and drop it) when the total passes the budget; otherwise send it.
    pub fn on_chunk(&mut self, len: usize) -> (a: ChunkAction)
        ensures
            final(self).max_chars == old(self).max_chars,
            old(self).aborted ==> a == ChunkAction::Skip && *final(self) == *old(self),
            !old(self).aborted ==> ({
                let t = sat_add_usize(old(self).total_chars as int, len as int);
                let over = match old(self).max_chars {
                    Some(l) => t > l,
                    None => false,
                };
                &&& final(self).total_chars == t
                &&& over ==> a == ChunkAction::Abort && final(self).aborted
                &&& !over ==> a == ChunkAction::Forward && !final(self).aborted
            }),
    {
        if self.aborted {
            return ChunkAction::Skip;
        }
        self.total_chars = self.total_chars.saturating_add(len);
        match self.max_chars {
            Some(limit) => {
                if self.total_chars > limit {
                    self.aborted = true;
                    return ChunkAction::Abort;
                }
            },
            None => {},
        }
        ChunkAction::Forward
    }

    /// The client went away: cut the stream off.
    pub fn on_send_failed(&mut self)
        ensures
            final(self).aborted,
            final(self).max_chars == old(self).max_chars,
            final(self).total_chars == old(self).total_chars,
    {
        self.aborted = true;
    }
}

} // verus!
