use npurun::cli::{
    approx_token_count, bare_model_name, check_remote_model, csv_field, delta_content,
    extract_sse_content, find_event_terminator, format_uptime, health_summary,
    hexagon_arch_list, parse_json_bytes, sort_names, stream_piece, warm_start, BenchSchedule,
    RemoteModelError, SseBuffer, StreamPiece,
};
use npurun::json::Json;

/// JSON text as the library reads it.
fn parse_json(text: &str) -> Option<Json> {
    parse_json_bytes(text.as_bytes())
}

#[test]
fn csv_field_passes_simple_strings_through() {
    assert_eq!(csv_field("hello"), "hello");
    assert_eq!(csv_field("phi-3.5-mini"), "phi-3.5-mini");
}

#[test]
fn csv_field_quotes_commas_quotes_newlines() {
    assert_eq!(csv_field("a, b"), "\"a, b\"");
    assert_eq!(csv_field("she said \"hi\""), "\"she said \"\"hi\"\"\"");
    assert_eq!(csv_field("line1\nline2"), "\"line1\nline2\"");
    assert_eq!(csv_field("cr\rhere"), "\"cr\rhere\"");
}

#[test]
fn sse_terminator_finds_lf_lf() {
    let buf = b"data: hi\n\nrest";
    let (end, len) = find_event_terminator(buf).expect("found");
    assert_eq!(&buf[..end], b"data: hi");
    assert_eq!(len, 2);
}

#[test]
fn sse_terminator_finds_crlf_crlf() {
    let buf = b"data: hi\r\n\r\nrest";
    let (end, len) = find_event_terminator(buf).expect("found");
    assert_eq!(&buf[..end], b"data: hi");
    assert_eq!(len, 4);
}

#[test]
fn sse_terminator_returns_none_for_partial_event() {
    assert!(find_event_terminator(b"data: hi\n").is_none());
}

#[test]
fn sse_terminator_takes_the_earlier_kind() {
    assert_eq!(find_event_terminator(b"a\r\n\r\nb\n\n"), Some((1, 4)));
    assert_eq!(find_event_terminator(b"a\n\nb\r\n\r\n"), Some((1, 2)));
}

#[test]
fn sse_extract_handles_chat_chunk() {
    let evt = b"data: {\"choices\":[{\"delta\":{\"content\":\"hi\"}}]}";
    let payload = extract_sse_content(evt).expect("payload");
    let v: serde_json::Value = serde_json::from_str(&payload).unwrap();
    assert_eq!(v["choices"][0]["delta"]["content"].as_str(), Some("hi"));
}

#[test]
fn sse_extract_returns_done_marker() {
    assert_eq!(extract_sse_content(b"data: [DONE]").as_deref(), Some("[DONE]"));
}

#[test]
fn sse_extract_skips_comment_only_event() {
    assert_eq!(extract_sse_content(b": keep-alive"), None);
}

#[test]
fn sse_extract_joins_data_lines_and_rejects_bad_utf8() {
    assert_eq!(extract_sse_content(b"data:a\nevent: x\ndata:   b").as_deref(), Some("a\nb"));
    assert_eq!(extract_sse_content(b"data: \xff"), None);
}

#[test]
fn bare_model_name_strips_tag() {
    assert_eq!(bare_model_name("phi-3.5-mini:latest"), "phi-3.5-mini");
    assert_eq!(bare_model_name("phi-3.5-mini"), "phi-3.5-mini");
}

#[test]
fn bare_model_name_ignores_any_tag_and_is_idempotent() {
    assert_eq!(bare_model_name("qwen2.5-7b:q4:extra"), "qwen2.5-7b");
    assert_eq!(bare_model_name(":latest"), "");
    let once = bare_model_name("llama-3.1-8b:latest");
    assert_eq!(bare_model_name(&once), once);
    let tagged = format!("{once}:v2");
    assert_eq!(bare_model_name(&tagged), once);
}

#[test]
fn uptime_drops_leading_zero_units() {
    assert_eq!(format_uptime(5), "5s");
    assert_eq!(format_uptime(65), "1m 5s");
    assert_eq!(format_uptime(3600), "1h 0m 0s");
    assert_eq!(format_uptime(3_725), "1h 2m 5s");
}

#[test]
fn token_estimate_rounds_words_times_one_point_three() {
    assert_eq!(approx_token_count(""), 0);
    assert_eq!(approx_token_count("one"), 1);
    assert_eq!(approx_token_count("a b"), 3);
    assert_eq!(approx_token_count("  a\tb\nc  d e "), 7);
    assert_eq!(approx_token_count("w w w w w w w w w w"), 13);
}

#[test]
fn hexagon_archs_are_filtered_sorted_and_joined() {
    let names = vec![
        "hexagon-v79".to_string(),
        "aarch64-windows-msvc".to_string(),
        "hexagon-v73".to_string(),
        "hexagon-vX".to_string(),
        "hexagon-v".to_string(),
    ];
    assert_eq!(hexagon_arch_list(names).as_deref(), Some("hexagon-v73, hexagon-v79"));
    assert_eq!(hexagon_arch_list(vec!["x86".to_string()]), None);
}

#[test]
fn names_sort_ascending() {
    let out = sort_names(vec!["qwen".into(), "llama".into(), "phi".into(), "llama".into()]);
    assert_eq!(out, vec!["llama", "llama", "phi", "qwen"]);
}

#[test]
fn sse_buffer_hands_out_whole_events() {
    let mut b = SseBuffer::new();
    b.push_bytes(b"data: a\n");
    assert!(b.next_event().is_none());
    b.push_bytes(b"\ndata: b\r\n\r\ntail");
    assert_eq!(b.next_event().unwrap(), b"data: a".to_vec());
    assert_eq!(b.next_event().unwrap(), b"data: b".to_vec());
    assert!(b.next_event().is_none());
}

#[test]
fn stream_pieces() {
    assert_eq!(stream_piece("[DONE]"), StreamPiece::Done);
    assert_eq!(
        stream_piece("{\"choices\":[{\"delta\":{\"content\":\"hi\"}}]}"),
        StreamPiece::Text("hi".into())
    );
    assert_eq!(stream_piece("{\"choices\":[{\"delta\":{\"content\":\"\"}}]}"), StreamPiece::Nothing);
    assert_eq!(stream_piece("{\"choices\":[]}"), StreamPiece::Nothing);
    assert_eq!(stream_piece("not json"), StreamPiece::Nothing);
    assert_eq!(delta_content(&parse_json("{\"choices\":[{\"delta\":{\"role\":\"assistant\"}}]}")), None);
}

#[test]
fn remote_model_must_match_by_bare_name() {
    let h = parse_json_bytes(b"{\"model\": \"phi:latest\", \"status\": \"ok\"}").unwrap();
    assert_eq!(check_remote_model("phi", &h), Ok("phi".to_string()));
    assert_eq!(
        check_remote_model("qwen:7b", &h),
        Err(RemoteModelError::OtherModel { loaded: "phi:latest".into() })
    );
    let empty = parse_json_bytes(b"{}").unwrap();
    assert_eq!(check_remote_model("phi", &empty), Err(RemoteModelError::NoModelLoaded));
    assert!(parse_json_bytes(b"\xff").is_none());
}

#[test]
fn health_summary_defaults() {
    let h = parse_json("{\"model\": \"phi\", \"uptime_seconds\": 65, \"auth\": true}").unwrap();
    let s = health_summary(&h);
    assert_eq!(s.model, "phi");
    assert_eq!(s.uptime_seconds, 65);
    assert!(s.auth);
    assert_eq!(s.status, "unknown");
    assert_eq!(s.version, "?");
    let neg = health_summary(&parse_json("{\"uptime_seconds\": -5}").unwrap());
    assert_eq!(neg.uptime_seconds, 0);
    assert_eq!(neg.model, "(none loaded)");
}

#[test]
fn bench_schedule_cycles_prompts_per_round() {
    let mut s = BenchSchedule::new(2, 2, false);
    let steps: Vec<(usize, usize, usize)> = std::iter::from_fn(|| s.next_step(false))
        .map(|st| (st.prompt, st.round, st.query))
        .collect();
    assert_eq!(steps, vec![(0, 1, 1), (1, 1, 2), (0, 2, 3), (1, 2, 4)]);
    let mut once = BenchSchedule::new(4, 0, false);
    assert_eq!(std::iter::from_fn(|| once.next_step(false)).count(), 4);
    let mut timed = BenchSchedule::new(1, 1, true);
    assert!(timed.next_step(false).is_some());
    assert!(timed.next_step(false).is_some());
    assert!(timed.next_step(true).is_none());
    assert_eq!(warm_start(true, 3), 1);
    assert_eq!(warm_start(true, 1), 0);
    assert_eq!(warm_start(false, 3), 0);
}
