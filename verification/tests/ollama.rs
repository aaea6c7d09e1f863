use npurun::digest_map::Sha256Map;
use npurun::npurun::manifest::{ChatRole, ChatTemplate, Manifest, ManifestFiles, Quant};
use npurun::server::ollama::{
    default_stream, epoch_days_to_ymd, is_loaded_model, iso8601_from_secs, model_card,
    ollama_chat_messages, parameter_size_hint, quant_label, requested_model, OllamaMessage,
};

#[test]
fn epoch_origin_is_1970_01_01() {
    assert_eq!(epoch_days_to_ymd(0), (1970, 1, 1));
}

#[test]
fn handles_leap_day_2024() {
    assert_eq!(epoch_days_to_ymd(19_782), (2024, 2, 29));
    assert_eq!(epoch_days_to_ymd(19_783), (2024, 3, 1));
}

#[test]
fn handles_year_2026() {
    assert_eq!(epoch_days_to_ymd(20_574), (2026, 5, 1));
}

#[test]
fn handles_century_non_leap_2100() {
    assert_eq!(epoch_days_to_ymd(47_540), (2100, 2, 28));
    assert_eq!(epoch_days_to_ymd(47_541), (2100, 3, 1));
}

#[test]
fn days_before_the_epoch_and_around_2000() {
    assert_eq!(epoch_days_to_ymd(-1), (1969, 12, 31));
    assert_eq!(epoch_days_to_ymd(10_956), (1999, 12, 31));
    assert_eq!(epoch_days_to_ymd(11_016), (2000, 2, 29));
    assert_eq!(epoch_days_to_ymd(-719_468), (0, 3, 1));
}

#[test]
fn iso8601_formats_date_and_time_of_day() {
    assert_eq!(iso8601_from_secs(0), "1970-01-01T00:00:00Z");
    assert_eq!(iso8601_from_secs(19_782 * 86_400 + 3_723), "2024-02-29T01:02:03Z");
    assert_eq!(iso8601_from_secs(-1), "1969-12-31T23:59:59Z");
    assert_eq!(iso8601_from_secs(-719_469 * 86_400), "0000-02-29T00:00:00Z");
    assert_eq!(iso8601_from_secs(-719_529 * 86_400 + 1), "-001-12-31T00:00:01Z");
}

#[test]
fn parameter_size_comes_from_the_name() {
    assert_eq!(parameter_size_hint("phi3", "Phi-3.5-Mini"), "3.8B");
    assert_eq!(parameter_size_hint("llama", "llama-v3-1-8b-instruct"), "8B");
    assert_eq!(parameter_size_hint("qwen2", "qwen-2-5-7b"), "7B");
    assert_eq!(parameter_size_hint("x", "model-3-q"), "3B");
    assert_eq!(parameter_size_hint("x", "mystery"), "unknown");
}

#[test]
fn quant_labels() {
    assert_eq!(quant_label(Quant::Int8WInt16A), "INT8(W)/INT16(A)");
    assert_eq!(quant_label(Quant::W4A16), "W4A16");
    assert_eq!(quant_label(Quant::Fp16), "FP16");
}

#[test]
fn model_card_of_a_manifest() {
    let m = Manifest {
        name: "phi-3.5-mini".into(),
        version: "1.0.0".into(),
        arch: "phi3".into(),
        vocab: 32064,
        context: 4096,
        quant: Quant::W4A16,
        qnn_sdk: "2.45.0".into(),
        files: ManifestFiles::default(),
        chat_template: Some(ChatTemplate {
            system_prompt: "sys".into(),
            template: "[S]{system}[U]{user}".into(),
            assistant_turn: None,
            next_user_turn: None,
        }),
        sha256: Sha256Map::new(),
    };
    let c = model_card(&m);
    assert_eq!(c.modelfile, "# npurun bundle\nFROM phi-3.5-mini\nQNN_SDK 2.45.0\nCONTEXT 4096\n");
    assert_eq!(c.parameters, "context 4096");
    assert_eq!(c.template, "[S]{system}[U]{user}");
    assert_eq!(c.system, "sys");
    assert_eq!(c.parameter_size, "3.8B");
    assert_eq!(c.quantization_level, "W4A16");
    assert_eq!(c.family, "phi3");
    assert_eq!(c.context, 4096);
    assert_eq!(c.vocab, 32064);
}

#[test]
fn show_and_delete_name_the_bare_model() {
    assert_eq!(requested_model(&Some("phi:latest".into()), &Some("x".into())).as_deref(), Some("phi"));
    assert_eq!(requested_model(&None, &Some("qwen:7b".into())).as_deref(), Some("qwen"));
    assert_eq!(requested_model(&None, &None), None);
    assert!(is_loaded_model(&Some("phi".into()), "phi"));
    assert!(!is_loaded_model(&Some("phi".into()), "qwen"));
    assert!(!is_loaded_model(&None, "phi"));
    assert!(default_stream());
}

#[test]
fn chat_keeps_known_roles_and_needs_a_user_turn() {
    let ms = vec![
        OllamaMessage { role: "system".into(), content: "s".into() },
        OllamaMessage { role: "tool".into(), content: "t".into() },
        OllamaMessage { role: "user".into(), content: "u".into() },
    ];
    let out = ollama_chat_messages(&ms).unwrap();
    assert_eq!(out.len(), 2);
    assert!(matches!(out[0].role, ChatRole::System));
    assert_eq!(out[1].content, "u");
    let none = vec![OllamaMessage { role: "assistant".into(), content: "a".into() }];
    assert!(ollama_chat_messages(&none).is_none());
}
