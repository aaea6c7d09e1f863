use npurun::cli::parse_json_bytes;
use npurun::json::Json;
use npurun::npurun::manifest::{ChatMessage as Msg, ChatRole};
use npurun::server::openai::{
    advertised_model_ids, augment_for_json_mode, augment_for_tools, estimate_message_tokens,
    finish_chat_reply, pick_model_name, plan_chat_completion, trim_messages_for_context,
    ChatRejection, ChatRequest, ChunkAction, RequestMessage, StreamBudget, ToolFunction, ToolSpec,
    DEFAULT_INPUT_TOKEN_BUDGET,
};
use npurun::server::tool_calls::{bare_tool_call, block_tool_call, parse_tool_calls};

/// JSON text as the library reads it.
fn parse_json(text: &str) -> Option<Json> {
    parse_json_bytes(text.as_bytes())
}

fn user(s: &str) -> Msg {
    Msg { role: ChatRole::User, content: s.to_string() }
}
fn assistant(s: &str) -> Msg {
    Msg { role: ChatRole::Assistant, content: s.to_string() }
}
fn system(s: &str) -> Msg {
    Msg { role: ChatRole::System, content: s.to_string() }
}

#[test]
fn passes_through_when_under_budget() {
    let msgs = vec![user("hi"), assistant("hello")];
    let (out, trimmed) = trim_messages_for_context(msgs.clone(), 1000);
    assert!(!trimmed);
    assert_eq!(out.len(), 2);
}

#[test]
fn drops_oldest_when_over_budget() {
    let big = "x".repeat(200);
    let msgs = vec![
        user(&big),
        assistant(&big),
        user(&big),
        assistant(&big),
        user("now this is the latest"),
    ];
    let (out, trimmed) = trim_messages_for_context(msgs, 100);
    assert!(trimmed);
    assert_eq!(out.last().unwrap().content, "now this is the latest");
    assert!(out.len() < 5);
}

#[test]
fn preserves_system_message() {
    let big = "x".repeat(200);
    let msgs = vec![system("be helpful"), user(&big), assistant(&big), user(&big), user("recent")];
    let (out, trimmed) = trim_messages_for_context(msgs, 100);
    assert!(trimmed);
    assert!(matches!(out[0].role, ChatRole::System));
    assert_eq!(out[0].content, "be helpful");
    assert_eq!(out.last().unwrap().content, "recent");
}

#[test]
fn keeps_latest_user_even_if_over_budget_alone() {
    let huge = "y".repeat(8000);
    let msgs = vec![user(&huge)];
    let (out, _) = trim_messages_for_context(msgs, 100);
    assert_eq!(out.len(), 1);
}

#[test]
fn trimming_keeps_the_longest_suffix_that_fits() {
    // Costs: 40 chars -> 18 tokens each; the system message costs 10.
    let m = "z".repeat(40);
    let msgs = vec![system("be brief"), user(&m), assistant(&m), user(&m), assistant(&m), user(&m)];
    let (out, trimmed) = trim_messages_for_context(msgs, 50);
    assert!(trimmed);
    // 50 - 10 = 40 left: two messages (36) fit, three (54) do not.
    assert_eq!(out.len(), 3);
    assert_eq!(out[0].content, "be brief");
    assert!(matches!(out[1].role, ChatRole::Assistant));
    assert!(matches!(out[2].role, ChatRole::User));
}

#[test]
fn token_estimate_is_a_quarter_of_the_bytes_plus_eight() {
    assert_eq!(estimate_message_tokens(&user("")), 8);
    assert_eq!(estimate_message_tokens(&user("abcdefg")), 9);
    // Multi-byte text counts bytes: "é" is two bytes.
    assert_eq!(estimate_message_tokens(&user("éééé")), 10);
}

#[test]
fn prepends_system_when_none_present() {
    let out = augment_for_json_mode(vec![user("give me an object")]);
    assert_eq!(out.len(), 2);
    assert!(matches!(out[0].role, ChatRole::System));
    assert!(out[0].content.contains("valid JSON"));
}

#[test]
fn merges_into_existing_system() {
    let out = augment_for_json_mode(vec![system("be terse"), user("hi")]);
    assert_eq!(out.len(), 2);
    assert!(matches!(out[0].role, ChatRole::System));
    assert!(out[0].content.starts_with("be terse"));
    assert!(out[0].content.contains("valid JSON"));
}

#[test]
fn merges_into_first_system_only() {
    let out = augment_for_json_mode(vec![system("first"), system("second"), user("hi")]);
    assert_eq!(out.len(), 3);
    assert!(out[0].content.contains("valid JSON"));
    assert_eq!(out[1].content, "second");
}

#[test]
fn json_mode_hint_follows_a_blank_line() {
    let out = augment_for_json_mode(vec![system("be terse"), user("hi")]);
    assert!(out[0].content.starts_with("be terse\n\nYou must respond with valid JSON only."));
}

fn fn_tool(name: &str, desc: &str) -> ToolSpec {
    ToolSpec {
        kind: "function".to_string(),
        function: ToolFunction {
            name: name.to_string(),
            description: Some(desc.to_string()),
            parameters: parse_json(r#"{"type": "object", "properties": {}}"#),
        },
    }
}

#[test]
fn augment_for_tools_is_noop_when_empty() {
    let msgs = vec![user("hi")];
    let out = augment_for_tools(msgs.clone(), &[]);
    assert_eq!(out.len(), msgs.len());
    assert_eq!(out[0].content, "hi");
}

#[test]
fn augment_for_tools_injects_system_with_tool_names() {
    let tools = vec![fn_tool("get_current_time", "current time"), fn_tool("calc", "do math")];
    let out = augment_for_tools(vec![user("hello")], &tools);
    assert!(matches!(out[0].role, ChatRole::System));
    assert!(out[0].content.contains("get_current_time"));
    assert!(out[0].content.contains("calc"));
    assert!(out[0].content.contains("<tool_call>"));
    assert_eq!(out[1].content, "hello");
}

#[test]
fn tool_lines_carry_description_and_serialised_parameters() {
    let tools = vec![fn_tool("calc", "do math")];
    let out = augment_for_tools(vec![user("hello")], &tools);
    assert!(out[0]
        .content
        .ends_with("- calc: do math\n  parameters: {\"properties\":{},\"type\":\"object\"}\n"));
}

#[test]
fn parse_tool_calls_returns_none_when_absent() {
    assert!(parse_tool_calls("hello world").is_none());
}

#[test]
fn parse_tool_calls_extracts_single_call() {
    let text = "<tool_call>{\"name\": \"calc\", \"arguments\": {\"expression\": \"2+2\"}}</tool_call>";
    let calls = parse_tool_calls(text).expect("expected one call");
    assert_eq!(calls.len(), 1);
    assert_eq!(calls[0].name, "calc");
    assert_eq!(calls[0].kind, "function");
    let args: serde_json::Value = serde_json::from_str(&calls[0].arguments).expect("args parse");
    assert_eq!(args.get("expression").and_then(|v| v.as_str()), Some("2+2"));
}

#[test]
fn parse_tool_calls_skips_malformed_blocks() {
    let text = "noise <tool_call>not json</tool_call> mid \
                <tool_call>{\"name\": \"get_current_time\"}</tool_call> end";
    let calls = parse_tool_calls(text).expect("one valid call");
    assert_eq!(calls.len(), 1);
    assert_eq!(calls[0].name, "get_current_time");
    assert_eq!(calls[0].kind, "function");
    assert_eq!(calls[0].arguments, "{}");
}

#[test]
fn parse_tool_calls_accepts_tool_name_as_tag() {
    let text = "<get_current_time>{}</get_current_time>";
    let calls = parse_tool_calls(text).expect("one call");
    assert_eq!(calls.len(), 1);
    assert_eq!(calls[0].name, "get_current_time");
    assert_eq!(calls[0].kind, "function");
    assert_eq!(calls[0].arguments, "{}");
}

#[test]
fn parse_tool_calls_accepts_bare_json() {
    let text = " {\"name\": \"get_current_time\", \"arguments\": {}} ";
    let calls = parse_tool_calls(text).expect("one call");
    assert_eq!(calls.len(), 1);
    assert_eq!(calls[0].name, "get_current_time");
    assert_eq!(calls[0].kind, "function");
    assert_eq!(calls[0].arguments, "{}");
}

#[test]
fn parse_tool_calls_accepts_inline_args_under_tag() {
    let text = "<calc>{\"expression\": \"2+2\"}</calc>";
    let calls = parse_tool_calls(text).expect("one call");
    assert_eq!(calls.len(), 1);
    assert_eq!(calls[0].name, "calc");
    assert_eq!(calls[0].kind, "function");
    let args: serde_json::Value = serde_json::from_str(&calls[0].arguments).expect("args parse");
    assert_eq!(args.get("expression").and_then(|v| v.as_str()), Some("2+2"));
}

#[test]
fn tool_call_tag_needs_a_name() {
    assert!(parse_tool_calls("<TOOL_CALL>{\"x\": 1}</TOOL_CALL>").is_none());
}

#[test]
fn several_calls_come_out_in_order() {
    let text = "<a>{}</a> and <b>{\"k\": [1, 2]}</b>";
    let calls = parse_tool_calls(text).unwrap();
    assert_eq!(calls.len(), 2);
    assert_eq!(calls[0].name, "a");
    assert_eq!(calls[0].kind, "function");
    assert_eq!(calls[1].name, "b");
    assert_eq!(calls[1].arguments, "{\"k\":[1,2]}");
}

#[test]
fn block_call_drops_name_from_inline_arguments() {
    let c = block_tool_call("tool_call", parse_json(r#"{"name": "f", "x": true}"#)).unwrap();
    assert_eq!(c.name, "f");
    assert_eq!(c.arguments, "{\"x\":true}");
    assert!(block_tool_call("calc", None).is_none());
    let d = block_tool_call("calc", parse_json("[1]")).unwrap();
    assert_eq!(d.name, "calc");
    assert_eq!(d.arguments, "{}");
}

#[test]
fn bare_call_needs_a_string_name() {
    assert!(bare_tool_call(parse_json(r#"{"name": 3}"#)).is_none());
    let c = bare_tool_call(parse_json(r#"{"name": "f", "arguments": {"a": 1}}"#)).unwrap();
    assert_eq!(c.name, "f");
    assert_eq!(c.arguments, "{\"a\":1}");
}

fn req_msg(role: &str, content: Option<&str>, id: Option<&str>) -> RequestMessage {
    RequestMessage {
        role: role.into(),
        content: content.map(|s| s.into()),
        tool_call_id: id.map(|s| s.into()),
    }
}

fn request(messages: Vec<RequestMessage>) -> ChatRequest {
    ChatRequest {
        model: None,
        messages,
        stream: false,
        max_tokens: None,
        response_format: None,
        tools: None,
    }
}

#[test]
fn plan_converts_tool_results_to_user_turns() {
    let r = request(vec![
        req_msg("user", Some("time?"), None),
        req_msg("tool", Some("12:00"), Some("call_1")),
        req_msg("narrator", Some("ignored"), None),
    ]);
    let plan = plan_chat_completion(r, Some("phi".into())).ok().unwrap();
    assert_eq!(plan.messages.len(), 2);
    assert_eq!(plan.messages[1].content, "<tool_result tool_call_id=\"call_1\">12:00</tool_result>");
    assert!(matches!(plan.messages[1].role, ChatRole::User));
    assert_eq!(plan.model_name, "phi");
    assert!(!plan.trimmed);
    assert!(!plan.tools_enabled);
}

#[test]
fn plan_refuses_tools_with_streaming() {
    let mut r = request(vec![req_msg("user", Some("hi"), None)]);
    r.stream = true;
    r.tools = Some(vec![fn_tool("calc", "do math")]);
    let err = plan_chat_completion(r, None).err().unwrap();
    assert_eq!(err, ChatRejection::ToolsRequireBlocking);
    assert_eq!(err.message(), "tool calls require stream=false in this version");
}

#[test]
fn plan_refuses_a_transcript_without_user_turn() {
    let r = request(vec![req_msg("system", Some("x"), None), req_msg("assistant", None, None)]);
    let err = plan_chat_completion(r, None).err().unwrap();
    assert_eq!(err, ChatRejection::NoUserMessage);
    assert_eq!(err.message(), "no user message in request");
}

#[test]
fn plan_adds_json_mode_and_names_the_default_model() {
    let mut r = request(vec![req_msg("user", Some("an object"), None)]);
    r.response_format = Some("json_object".into());
    let plan = plan_chat_completion(r, None).ok().unwrap();
    assert_eq!(plan.model_name, "npurun");
    assert!(matches!(plan.messages[0].role, ChatRole::System));
    assert!(plan.messages[0].content.contains("valid JSON"));
    assert_eq!(DEFAULT_INPUT_TOKEN_BUDGET, 3000);
}

#[test]
fn blocking_reply_reads_tool_calls_only_when_tools_were_offered() {
    let text = "<calc>{}</calc>".to_string();
    let plain = finish_chat_reply(text.clone(), false);
    assert_eq!(plain.content.as_deref(), Some("<calc>{}</calc>"));
    assert_eq!(plain.finish_reason, "stop");
    let tooled = finish_chat_reply(text, true);
    assert!(tooled.content.is_none());
    assert_eq!(tooled.finish_reason, "tool_calls");
    assert_eq!(tooled.tool_calls.unwrap()[0].name, "calc");
}

#[test]
fn model_name_falls_back_in_order() {
    assert_eq!(pick_model_name(&Some("a".into()), &Some("b".into()), "c"), "a");
    assert_eq!(pick_model_name(&None, &Some("b".into()), "c"), "b");
    assert_eq!(pick_model_name(&None, &None, "c"), "c");
}

#[test]
fn models_list_advertises_bare_and_latest() {
    assert_eq!(advertised_model_ids(&Some("phi".into())), vec!["phi", "phi:latest"]);
    assert!(advertised_model_ids(&None).is_empty());
}

#[test]
fn stream_budget_cuts_off_past_four_chars_per_token() {
    let mut b = StreamBudget::new(Some(2));
    assert_eq!(b.max_chars, Some(8));
    assert_eq!(b.on_chunk(5), ChunkAction::Forward);
    assert_eq!(b.on_chunk(3), ChunkAction::Forward);
    assert_eq!(b.on_chunk(1), ChunkAction::Abort);
    assert!(b.aborted);
    assert_eq!(b.on_chunk(1), ChunkAction::Skip);
    let mut open = StreamBudget::new(None);
    assert_eq!(open.on_chunk(usize::MAX), ChunkAction::Forward);
    assert_eq!(open.on_chunk(10), ChunkAction::Forward);
    assert_eq!(open.total_chars, usize::MAX);
    open.on_send_failed();
    assert!(open.aborted);
}
