use npurun::genie::{check, sentence_code_to_raw, status_name, GenieError, SentenceCode};
use npurun::hexrun::engine::{npu_present, Backend as HexBackend};
use npurun::hexrun::server::{epoch_day_timestamp, latest_user_message, WireMessage};
use npurun::cli::parse_json_bytes;
use npurun::json::Json;
use npurun::npurun::engine::{
    available_ctx_tiers, check_ctx_override, format_tiers, pin_context_tier, Backend,
    EngineConfig, EngineError,
};

/// JSON text as the library reads it.
fn parse_json(text: &str) -> Option<Json> {
    parse_json_bytes(text.as_bytes())
}

#[test]
fn defaults_use_genie_backend() {
    assert_eq!(EngineConfig::default().backend, Backend::Genie);
}

#[test]
fn defaults_use_no_ctx_override() {
    assert_eq!(EngineConfig::default().ctx, None);
    assert_eq!(EngineConfig::default().max_tokens, 512);
}

#[test]
fn hexrun_defaults_to_ort_without_npu() {
    assert_eq!(HexBackend::default(), HexBackend::Ort);
    assert!(!npu_present("anything"));
}

fn phi_config() -> Json {
    parse_json(
        r#"{"dialog": {"context": {"size": 4096},
            "engine": {"model": {"binary": {"ctx-bins": [
            "weight_sharing_model_ar128_ar1_cl512_cl1024_cl2048_cl3072_cl4096_1_of_4.serialized.bin",
            "weight_sharing_model_ar128_ar1_cl512_cl1024_cl2048_cl3072_cl4096_2_of_4.serialized.bin"
        ]}}}}}"#,
    )
    .unwrap()
}

#[test]
fn parses_phi_ctx_tiers_from_genie_config() {
    assert_eq!(available_ctx_tiers(&phi_config()), vec![512, 1024, 2048, 3072, 4096]);
}

#[test]
fn empty_when_genie_config_lacks_ctx_bins() {
    let json = parse_json(r#"{"dialog": {}}"#).unwrap();
    assert_eq!(available_ctx_tiers(&json), Vec::<u32>::new());
}

#[test]
fn tiers_ignore_non_string_bins_and_overflowing_numbers() {
    let json = parse_json(
        r#"{"dialog": {"engine": {"model": {"binary": {"ctx-bins": [7, "x_cl99999999999_cl8", "cl"]}}}}}"#,
    )
    .unwrap();
    assert_eq!(available_ctx_tiers(&json), vec![8]);
}

#[test]
fn tier_list_message() {
    assert_eq!(format_tiers(&[512, 1024]), "512, 1024");
    assert_eq!(format_tiers(&[]), "(none \u{2014} could not parse ctx-bins filenames)");
    assert!(check_ctx_override(1024, vec![512, 1024]).is_ok());
    match check_ctx_override(64, vec![512]) {
        Err(EngineError::ContextTierUnavailable { requested, available }) => {
            assert_eq!(requested, 64);
            assert_eq!(available, vec![512]);
        }
        other => panic!("unexpected {other:?}"),
    }
}

#[test]
fn pinning_a_tier_rewrites_context_size() {
    let text = pin_context_tier(phi_config(), 1024, "g.json").ok().unwrap();
    let v: serde_json::Value = serde_json::from_str(&text).unwrap();
    assert_eq!(v["dialog"]["context"]["size"].as_u64(), Some(1024));
    assert_eq!(v["dialog"]["engine"]["model"]["binary"]["ctx-bins"].as_array().unwrap().len(), 2);
    match pin_context_tier(phi_config(), 777, "g.json") {
        Err(EngineError::ContextTierUnavailable { requested, available }) => {
            assert_eq!(requested, 777);
            assert_eq!(available, vec![512, 1024, 2048, 3072, 4096]);
        }
        other => panic!("unexpected {other:?}"),
    }
    let no_size = parse_json(
        r#"{"dialog": {"engine": {"model": {"binary": {"ctx-bins": ["a_cl512"]}}}}}"#,
    )
    .unwrap();
    match pin_context_tier(no_size, 512, "g.json") {
        Err(EngineError::GenieConfigRead { path, message }) => {
            assert_eq!(path, "g.json");
            assert_eq!(message, "missing dialog.context.size; cannot apply --ctx override");
        }
        other => panic!("unexpected {other:?}"),
    }
}

#[test]
fn sentence_code_round_trip() {
    for (raw, expected) in [
        (0, SentenceCode::Complete),
        (1, SentenceCode::Begin),
        (2, SentenceCode::Continue),
        (3, SentenceCode::End),
        (4, SentenceCode::Abort),
        (5, SentenceCode::Rewind),
        (6, SentenceCode::Resume),
    ] {
        assert_eq!(SentenceCode::from_raw(raw), expected);
        assert_eq!(sentence_code_to_raw(expected), raw);
    }
    assert_eq!(SentenceCode::from_raw(99), SentenceCode::Other(99));
    assert_eq!(sentence_code_to_raw(SentenceCode::Other(99)), 99);
}

#[test]
fn status_codes_have_names() {
    assert!(check(0).is_ok());
    assert!(matches!(check(-1), Err(GenieError::Status { .. })));
    assert_eq!(status_name(0), "SUCCESS");
}

#[test]
fn hexrun_answers_the_latest_user_turn() {
    let ms = vec![
        WireMessage { role: "user".into(), content: "first".into() },
        WireMessage { role: "user".into(), content: "second".into() },
        WireMessage { role: "assistant".into(), content: "reply".into() },
    ];
    assert_eq!(latest_user_message(&ms).as_deref(), Some("second"));
    assert_eq!(latest_user_message(&ms[2..]), None);
    assert_eq!(epoch_day_timestamp(86_400 * 3 + 3_661), "1970-01-01T01:01:01Z");
}
