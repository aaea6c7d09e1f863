use npurun::digest_map::Sha256Map;
use npurun::hexrun::manifest as hx;
use npurun::npurun::manifest::{
    ChatMessage, ChatRole, ChatTemplate, Manifest, ManifestError, ManifestFiles, Quant,
};
use npurun::rules::parse_semver;

fn good() -> Manifest {
    Manifest {
        name: "phi-3.5-mini".into(),
        version: "1.0.0".into(),
        arch: "phi3".into(),
        vocab: 32064,
        context: 4096,
        quant: Quant::W4A16,
        qnn_sdk: "2.45.0".into(),
        files: ManifestFiles {
            model: None,
            ctx: None,
            tokenizer: Some("tokenizer.json".into()),
            config: None,
            genie_config: Some("bundle/genie_config.json".into()),
        },
        chat_template: Some(ChatTemplate {
            system_prompt: "You are a helpful assistant.".into(),
            template: "<|system|>\n{system}<|end|>\n<|user|>\n{user}<|end|>\n<|assistant|>\n".into(),
            assistant_turn: Some("{assistant}<|end|>\n".into()),
            next_user_turn: Some("<|user|>\n{user}<|end|>\n<|assistant|>\n".into()),
        }),
        sha256: Sha256Map::new(),
    }
}

fn good_hex() -> hx::Manifest {
    hx::Manifest {
        name: "phi-3.5-mini".into(),
        version: "1.0.0".into(),
        arch: "phi3".into(),
        vocab: 32064,
        context: 4096,
        quant: hx::Quant::Int8WInt16A,
        qnn_sdk: "2.44.0".into(),
        files: hx::ManifestFiles {
            model: "model.onnx".into(),
            ctx: Some("model.qnn_ctx.bin".into()),
            tokenizer: "tokenizer.json".into(),
            config: None,
        },
        sha256: Sha256Map::new(),
    }
}

fn is_invalid(r: Result<(), ManifestError>) -> bool {
    matches!(r, Err(ManifestError::Invalid(_)))
}

fn is_invalid_hex(r: Result<(), hx::ManifestError>) -> bool {
    matches!(r, Err(hx::ManifestError::Invalid(_)))
}

#[test]
fn manifest_rejects_empty_name() {
    let mut m = good();
    m.name.clear();
    assert!(is_invalid(m.validate()));
    let mut h = good_hex();
    h.name.clear();
    assert!(is_invalid_hex(h.validate()));
}

#[test]
fn manifest_rejects_zero_vocab() {
    let mut m = good();
    m.vocab = 0;
    assert!(is_invalid(m.validate()));
    let mut h = good_hex();
    h.vocab = 0;
    assert!(is_invalid_hex(h.validate()));
}

#[test]
fn manifest_rejects_path_traversal() {
    let mut m = good();
    m.files.tokenizer = Some("../etc/passwd".into());
    let err = m.validate().unwrap_err();
    assert!(matches!(err, ManifestError::Invalid(s) if s.contains("'..'")));
    let mut h = good_hex();
    h.files.tokenizer = "../etc/passwd".into();
    let err = h.validate().unwrap_err();
    assert!(matches!(err, hx::ManifestError::Invalid(s) if s.contains("'..'")));
}

#[test]
fn manifest_rejects_absolute_path() {
    let mut m = good();
    m.files.genie_config = Some("/abs/genie.json".into());
    assert!(is_invalid(m.validate()));
    let mut h = good_hex();
    h.files.model = "/abs/model.onnx".into();
    assert!(is_invalid_hex(h.validate()));
}

#[test]
fn manifest_rejects_drive_prefix() {
    let mut m = good();
    m.files.genie_config = Some("C:\\abs\\genie.json".into());
    assert!(is_invalid(m.validate()));
    let mut h = good_hex();
    h.files.model = "C:\\abs\\model.onnx".into();
    assert!(is_invalid_hex(h.validate()));
}

#[test]
fn manifest_rejects_bad_sha256() {
    let mut m = good();
    m.sha256.insert("model".into(), "not-a-real-hex".into());
    assert!(is_invalid(m.validate()));
    let mut h = good_hex();
    h.sha256.insert("model".into(), "not-a-real-hex".into());
    assert!(is_invalid_hex(h.validate()));
}

#[test]
fn manifest_accepts_valid_sha256() {
    let mut m = good();
    m.sha256.insert("model".into(), "a".repeat(64));
    m.validate().unwrap();
    let mut h = good_hex();
    h.sha256.insert("model".into(), "a".repeat(64));
    h.validate().unwrap();
}

#[test]
fn manifest_rejects_bad_qnn_sdk_version() {
    let mut m = good();
    m.qnn_sdk = "two.point.four".into();
    assert!(is_invalid(m.validate()));
    let mut h = good_hex();
    h.qnn_sdk = "two.point.four".into();
    assert!(is_invalid_hex(h.validate()));
}

#[test]
fn rejects_neither_model_nor_genie_config() {
    let mut m = good();
    m.files.genie_config = None;
    m.files.model = None;
    assert!(is_invalid(m.validate()));
}

#[test]
fn rejects_chat_template_without_user_placeholder() {
    let mut m = good();
    m.chat_template = Some(ChatTemplate {
        system_prompt: "x".into(),
        template: "no placeholder".into(),
        assistant_turn: None,
        next_user_turn: None,
    });
    assert!(is_invalid(m.validate()));
}

#[test]
fn manifest_sdk_compat_major_mismatch_errors() {
    let m = good();
    let err = m.check_sdk_compat("3.0.0").unwrap_err();
    assert!(matches!(err, ManifestError::SdkMajorMismatch { .. }));
    let h = good_hex();
    let err = h.check_sdk_compat("3.0.0").unwrap_err();
    assert!(matches!(err, hx::ManifestError::SdkMajorMismatch { .. }));
}

#[test]
fn manifest_sdk_compat_minor_drift_warns_but_passes() {
    let m = good();
    m.check_sdk_compat("2.46.1").unwrap();
    let h = good_hex();
    h.check_sdk_compat("2.45.1").unwrap();
}

#[test]
fn manifest_sdk_compat_patch_drift_silent() {
    let m = good();
    m.check_sdk_compat("2.45.7").unwrap();
    let h = good_hex();
    h.check_sdk_compat("2.44.7").unwrap();
}

#[test]
fn manifest_parse_semver_accepts_pre_release() {
    assert_eq!(parse_semver("2.44.0"), Some((2, 44, 0)));
    assert_eq!(parse_semver("2.44.0-rc1"), Some((2, 44, 0)));
    assert_eq!(parse_semver("2.44.0+build.5"), Some((2, 44, 0)));
    assert_eq!(parse_semver("2.44"), None);
    assert_eq!(parse_semver("two.point.four"), None);
    assert_eq!(hx::parse_semver("2.44.0"), Some((2, 44, 0)));
    assert_eq!(hx::parse_semver("2.44.0-rc1"), Some((2, 44, 0)));
    assert_eq!(hx::parse_semver("2.44.0+build.5"), Some((2, 44, 0)));
    assert_eq!(hx::parse_semver("2.44"), None);
    assert_eq!(hx::parse_semver("two.point.four"), None);
}

#[test]
fn hexrun_version_patch_may_carry_trailing_text() {
    assert_eq!(hx::parse_semver("2.44.0rc1"), Some((2, 44, 0)));
    assert_eq!(hx::parse_semver("2.44.17beta"), Some((2, 44, 17)));
    assert_eq!(hx::parse_semver("2.44.rc1"), None);
    assert_eq!(hx::parse_semver("2.44.0.1"), None);
    assert_eq!(parse_semver("2.44.0rc1"), None);
    let mut h = good_hex();
    h.qnn_sdk = "2.44.0rc1".into();
    assert!(h.validate().is_ok());
    h.check_sdk_compat("2.44.3").unwrap();
}

#[test]
fn sdk_minor_drift_is_reported_separately() {
    let m = good();
    assert!(m.sdk_minor_drift("2.46.1"));
    assert!(!m.sdk_minor_drift("2.45.7"));
    assert!(!m.sdk_minor_drift("3.46.0"));
    assert!(!m.sdk_minor_drift("unknown"));
    let h = good_hex();
    assert!(h.sdk_minor_drift("2.45.1"));
    assert!(!h.sdk_minor_drift("2.44.7"));
}

#[test]
fn sdk_check_skips_unparseable_runtime_version() {
    let m = good();
    m.check_sdk_compat("unknown").unwrap();
}

#[test]
fn sdk_check_refuses_unparseable_manifest_version() {
    let mut m = good();
    m.qnn_sdk = "2.x".into();
    match m.check_sdk_compat("2.45.0") {
        Err(ManifestError::Invalid(s)) => assert_eq!(s, "qnn_sdk \"2.x\" unparseable"),
        other => panic!("unexpected {other:?}"),
    }
}

#[test]
fn validation_message_names_the_field() {
    let mut m = good();
    m.qnn_sdk = "two".into();
    match m.validate() {
        Err(ManifestError::Invalid(s)) => {
            assert_eq!(s, "qnn_sdk \"two\" is not in MAJOR.MINOR.PATCH form")
        }
        other => panic!("unexpected {other:?}"),
    }
}

#[test]
fn chat_template_wrap_substitutes_placeholders() {
    let t = ChatTemplate {
        system_prompt: "be helpful".into(),
        template: "[S]{system}[U]{user}[A]".into(),
        assistant_turn: None,
        next_user_turn: None,
    };
    assert_eq!(t.wrap("hi"), "[S]be helpful[U]hi[A]");
}

fn multi_turn_template() -> ChatTemplate {
    ChatTemplate {
        system_prompt: "default-system".into(),
        template: "[S]{system}[U]{user}[A]".into(),
        assistant_turn: Some("{assistant}[/A]".into()),
        next_user_turn: Some("[U]{user}[A]".into()),
    }
}

fn msg(role: ChatRole, s: &str) -> ChatMessage {
    ChatMessage { role, content: s.into() }
}

#[test]
fn wrap_chat_single_user_turn() {
    let t = multi_turn_template();
    let msgs = vec![msg(ChatRole::User, "hello")];
    assert_eq!(t.wrap_chat(&msgs).unwrap(), "[S]default-system[U]hello[A]");
}

#[test]
fn wrap_chat_multi_turn() {
    let t = multi_turn_template();
    let msgs = vec![
        msg(ChatRole::User, "u1"),
        msg(ChatRole::Assistant, "a1"),
        msg(ChatRole::User, "u2"),
    ];
    assert_eq!(t.wrap_chat(&msgs).unwrap(), "[S]default-system[U]u1[A]a1[/A][U]u2[A]");
}

#[test]
fn wrap_chat_explicit_system_overrides_default() {
    let t = multi_turn_template();
    let msgs = vec![msg(ChatRole::System, "be terse"), msg(ChatRole::User, "hi")];
    assert_eq!(t.wrap_chat(&msgs).unwrap(), "[S]be terse[U]hi[A]");
}

#[test]
fn wrap_chat_falls_back_when_multi_turn_fields_missing() {
    let t = ChatTemplate {
        system_prompt: "sys".into(),
        template: "[S]{system}[U]{user}[A]".into(),
        assistant_turn: None,
        next_user_turn: None,
    };
    let msgs = vec![
        msg(ChatRole::User, "u1"),
        msg(ChatRole::Assistant, "a1"),
        msg(ChatRole::User, "u2"),
    ];
    assert_eq!(t.wrap_chat(&msgs).unwrap(), "[S]sys[U]u2[A]");
}

#[test]
fn wrap_chat_returns_none_when_no_user_message() {
    let t = multi_turn_template();
    let msgs = vec![msg(ChatRole::Assistant, "a")];
    assert!(t.wrap_chat(&msgs).is_none());
}

#[test]
fn wrap_replaces_every_placeholder_occurrence() {
    let t = ChatTemplate {
        system_prompt: "S".into(),
        template: "{user}-{user}-{system}".into(),
        assistant_turn: None,
        next_user_turn: None,
    };
    assert_eq!(t.wrap("u"), "u-u-S");
}

#[test]
fn digest_table_keeps_keys_ordered_and_unique() {
    let mut d = Sha256Map::new();
    d.insert("tokenizer".into(), "b".into());
    d.insert("model".into(), "a".into());
    d.insert("tokenizer".into(), "c".into());
    assert_eq!(d.len(), 2);
    assert_eq!(d.entry(0).0, "model");
    assert_eq!(d.entry(1).0, "tokenizer");
    assert_eq!(d.get("tokenizer").map(|s| s.as_str()), Some("c"));
    assert_eq!(d.get("config"), None);
}
