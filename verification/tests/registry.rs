use npurun::hexrun::registry::KnownModel as HexKnownModel;
use npurun::cli::parse_json_bytes;
use npurun::json::Json;
use npurun::npurun::manifest::Quant;
use npurun::registry::{
    genie_peek, is_resource_fork_entry, known_models, manifest_for_known, parse_quant,
    rel_join, resolve_known, KnownModel, ProgressEvent, RegistryError,
};

/// JSON text as the library reads it.
fn parse_json(text: &str) -> Option<Json> {
    parse_json_bytes(text.as_bytes())
}

#[test]
fn lookup_finds_registered_models_only() {
    let m = KnownModel::lookup("phi-3.5-mini").unwrap();
    assert_eq!(m.arch, "phi3");
    assert_eq!(m.qairt_version, "2.43.1");
    assert!(m.chat_template.template.contains("{user}"));
    assert!(KnownModel::lookup("gpt-5").is_none());
    assert_eq!(known_models().len(), 6);
    let h = HexKnownModel::lookup("qwen-2-5-7b").unwrap();
    assert_eq!(h.arch, "qwen2");
    assert!(HexKnownModel::lookup("qwen3-4b").is_none());
}

#[test]
fn unknown_model_lists_the_registry() {
    match resolve_known("nope") {
        Err(RegistryError::UnknownModel { name, known }) => {
            assert_eq!(name, "nope");
            assert_eq!(known.len(), 6);
            assert_eq!(known[0], "phi-3.5-mini");
        }
        other => panic!("unexpected {other:?}"),
    }
    assert_eq!(resolve_known("qwen3-4b").ok().unwrap().arch, "qwen3");
}

#[test]
fn rel_join_uses_forward_slashes() {
    assert_eq!(rel_join("bundle", "tokenizer.json"), "bundle/tokenizer.json");
    assert_eq!(rel_join("bundle\\sub", "genie_config.json"), "bundle/sub/genie_config.json");
    assert_eq!(rel_join("bundle/", "x"), "bundle/x");
    assert_eq!(rel_join("", "x"), "x");
    assert_eq!(rel_join("C:", "x"), "C:x");
    assert_eq!(rel_join("C:\\m", "\\root"), "C:/root");
    assert_eq!(rel_join("a", "D:\\y"), "D:/y");
}

#[test]
fn quant_labels_parse_with_a_default() {
    assert_eq!(parse_quant("w4a16"), Quant::W4A16);
    assert_eq!(parse_quant("int8-w-int16-a"), Quant::Int8WInt16A);
    assert_eq!(parse_quant("fp16"), Quant::Fp16);
    assert_eq!(parse_quant("weird"), Quant::W8A16);
}

#[test]
fn genie_peek_reads_context_and_vocab() {
    let cfg = parse_json("{\"dialog\":{\"context\":{\"size\":4096,\"n-vocab\":32064}}}").unwrap();
    assert_eq!(genie_peek(&cfg), Some((4096, 32064)));
    let big = parse_json("{\"dialog\":{\"context\":{\"size\":5000000000,\"n-vocab\":1}}}").unwrap();
    assert_eq!(genie_peek(&big), None);
    assert_eq!(genie_peek(&parse_json("{\"dialog\":{}}").unwrap()), None);
}

#[test]
fn pulled_manifest_is_valid() {
    let known = KnownModel::lookup("phi-3.5-mini").unwrap();
    let m = manifest_for_known(&known, "bundle/phi", 4096, 32064);
    m.validate().unwrap();
    assert_eq!(m.files.genie_config.as_deref(), Some("bundle/phi/genie_config.json"));
    assert_eq!(m.files.tokenizer.as_deref(), Some("bundle/phi/tokenizer.json"));
    assert_eq!(m.quant, Quant::W4A16);
    assert_eq!(m.version, "0.1.0");
    let t = m.chat_template.unwrap();
    assert_eq!(t.assistant_turn.as_deref(), Some("{assistant}<|end|>\n"));
}

#[test]
fn resource_fork_entries_are_recognised() {
    assert!(is_resource_fork_entry(&vec!["__MACOSX".into(), "x".into()]));
    assert!(!is_resource_fork_entry(&vec!["bundle".into(), "x".into()]));
    let e = ProgressEvent::Downloaded { bytes: 3 };
    assert_eq!(e.clone(), ProgressEvent::Downloaded { bytes: 3 });
}
