//! The built-in registry of NPU-ready models, and what `pull` derives
//! from a downloaded bundle: the manifest it writes, the relative paths
//! in it, and the errors and progress it reports.

use vstd::prelude::*;
use crate::digest_map::Sha256Map;
use crate::json::{Json, JsonNumber, json_get, json_member, json_path};
use crate::npurun::manifest::{ChatTemplate, Manifest, ManifestFiles, Quant};
use crate::rules::{has_drive_prefix, is_sep};
use crate::text::{owned, replace_all, replace_str, str_eq, string_views, to_chars};

verus! {

/// Compile-time chat-template formats of a registry entry.
#[derive(Clone, Copy, Debug)]
pub struct ChatTemplateSpec {
    /// System prompt to use when none is supplied.
    pub system_prompt: &'static str,
    /// First-turn format with `{system}` and `{user}` placeholders.
    pub template: &'static str,
    /// Format of an assistant turn in a multi-turn transcript.
    pub assistant_turn: &'static str,
    /// Format of a follow-up user turn in a multi-turn transcript.
    pub next_user_turn: &'static str,
}

/// A known model entry.
#[derive(Clone, Copy, Debug)]
pub struct KnownModel {
    /// Short name used at the command line (`npurun pull <name>`).
    pub name: &'static str,
    /// Direct HTTPS URL of the bundle zip.
    pub url: &'static str,
    /// Architecture identifier copied into the manifest.
    pub arch: &'static str,
    /// Quantization scheme as shipped.
    pub quant: &'static str,
    /// Approximate compressed download size, for progress reporting.
    pub size_estimate_bytes: u64,
    /// QAIRT version the bundle was compiled against.
    pub qairt_version: &'static str,
    /// Default chat template of the model family.
    pub chat_template: ChatTemplateSpec,
}

// Shared prompt formats.
pub const SYSTEM_BRIEF: &'static str = "You are a concise assistant. Answer in 1-2 sentences.";
pub const SYSTEM_CONCISE: &'static str = "You are a concise assistant.";
pub const SYSTEM_HELPFUL: &'static str = "You are a helpful AI assistant";
pub const PHI3_TEMPLATE: &'static str = "<|system|>\n{system}<|end|>\n<|user|>\n{user}<|end|>\n<|assistant|>\n";
pub const PHI3_ASSISTANT_TURN: &'static str = "{assistant}<|end|>\n";
pub const PHI3_NEXT_USER_TURN: &'static str = "<|user|>\n{user}<|end|>\n<|assistant|>\n";
pub const LLAMA3_TEMPLATE: &'static str = "<|begin_of_text|><|start_header_id|>system<|end_header_id|>\n\n{system}<|eot_id|><|start_header_id|>user<|end_header_id|>\n\n{user}<|eot_id|><|start_header_id|>assistant<|end_header_id|>\n\n";
pub const LLAMA3_ASSISTANT_TURN: &'static str = "{assistant}<|eot_id|>";
pub const LLAMA3_NEXT_USER_TURN: &'static str = "<|start_header_id|>user<|end_header_id|>\n\n{user}<|eot_id|><|start_header_id|>assistant<|end_header_id|>\n\n";
pub const CHATML_TEMPLATE: &'static str = "<|im_start|>system\n{system}<|im_end|>\n<|im_start|>user\n{user}<|im_end|>\n<|im_start|>assistant\n";
pub const CHATML_ASSISTANT_TURN: &'static str = "{assistant}<|im_end|>\n";
pub const CHATML_NEXT_USER_TURN: &'static str = "<|im_start|>user\n{user}<|im_end|>\n<|im_start|>assistant\n";

// Download locations.
pub const PHI35_URL: &'static str = "https://qaihub-public-assets.s3.us-west-2.amazonaws.com/qai-hub-models/models/phi_3_5_mini_instruct/releases/v0.52.0/phi_3_5_mini_instruct-genie-w4a16-qualcomm_snapdragon_x_elite.zip";
pub const LLAMA31_8B_URL: &'static str = "https://qaihub-public-assets.s3.us-west-2.amazonaws.com/qai-hub-models/models/llama_v3_1_8b_instruct/releases/v0.52.0/llama_v3_1_8b_instruct-genie-w4a16-qualcomm_snapdragon_x_elite.zip";
pub const QWEN25_7B_URL: &'static str = "https://qaihub-public-assets.s3.us-west-2.amazonaws.com/qai-hub-models/models/qwen2_5_7b_instruct/releases/v0.52.0/qwen2_5_7b_instruct-genie-w4a16-qualcomm_snapdragon_x_elite.zip";
pub const QWEN3_4B_2507_URL: &'static str = "https://qaihub-public-assets.s3.us-west-2.amazonaws.com/qai-hub-models/models/qwen3_4b_instruct_2507/releases/v0.52.0/qwen3_4b_instruct_2507-genie-w4a16-qualcomm_snapdragon_x_elite.zip";
pub const QWEN3_4B_URL: &'static str = "https://qaihub-public-assets.s3.us-west-2.amazonaws.com/qai-hub-models/models/qwen3_4b/releases/v0.52.0/qwen3_4b-genie-w4a16-qualcomm_snapdragon_x_elite.zip";
pub const QWEN25_VL_7B_URL: &'static str = "https://qaihub-public-assets.s3.us-west-2.amazonaws.com/qai-hub-models/models/qwen2_5_vl_7b_instruct/releases/v0.52.0/qwen2_5_vl_7b_instruct-genie-w4a16-qualcomm_snapdragon_x_elite.zip";

/// The registry, in listing order.
pub open spec fn known_models_spec() -> Seq<KnownModel> {
    seq![
        KnownModel {
            name: "phi-3.5-mini",
            url: PHI35_URL,
            arch: "phi3",
            quant: "w4a16",
            size_estimate_bytes: 2_080_000_000,
            qairt_version: "2.43.1",
            chat_template: ChatTemplateSpec {
                system_prompt: SYSTEM_BRIEF,
                template: PHI3_TEMPLATE,
                assistant_turn: PHI3_ASSISTANT_TURN,
                next_user_turn: PHI3_NEXT_USER_TURN,
            },
        },
        KnownModel {
            name: "llama-v3-1-8b-instruct",
            url: LLAMA31_8B_URL,
            arch: "llama",
            quant: "w4a16",
            size_estimate_bytes: 4_500_000_000,
            qairt_version: "2.43.1",
            chat_template: ChatTemplateSpec {
                system_prompt: SYSTEM_CONCISE,
                template: LLAMA3_TEMPLATE,
                assistant_turn: LLAMA3_ASSISTANT_TURN,
                next_user_turn: LLAMA3_NEXT_USER_TURN,
            },
        },
        KnownModel {
            name: "qwen-2-5-7b",
            url: QWEN25_7B_URL,
            arch: "qwen2",
            quant: "w4a16",
            size_estimate_bytes: 4_300_000_000,
            qairt_version: "2.43.1",
            chat_template: ChatTemplateSpec {
                system_prompt: SYSTEM_BRIEF,
                template: CHATML_TEMPLATE,
                assistant_turn: CHATML_ASSISTANT_TURN,
                next_user_turn: CHATML_NEXT_USER_TURN,
            },
        },
        KnownModel {
            name: "qwen3-4b-instruct-2507",
            url: QWEN3_4B_2507_URL,
            arch: "qwen3",
            quant: "w4a16",
            size_estimate_bytes: 2_530_000_000,
            qairt_version: "2.45.0",
            chat_template: ChatTemplateSpec {
                system_prompt: SYSTEM_HELPFUL,
                template: CHATML_TEMPLATE,
                assistant_turn: CHATML_ASSISTANT_TURN,
                next_user_turn: CHATML_NEXT_USER_TURN,
            },
        },
        KnownModel {
            name: "qwen3-4b",
            url: QWEN3_4B_URL,
            arch: "qwen3",
            quant: "w4a16",
            size_estimate_bytes: 2_530_000_000,
            qairt_version: "2.45.0",
            chat_template: ChatTemplateSpec {
                system_prompt: SYSTEM_HELPFUL,
                template: CHATML_TEMPLATE,
                assistant_turn: CHATML_ASSISTANT_TURN,
                next_user_turn: CHATML_NEXT_USER_TURN,
            },
        },
        KnownModel {
            name: "qwen-2-5-vl-7b-instruct",
            url: QWEN25_VL_7B_URL,
            arch: "qwen2-vl",
            quant: "w4a16",
            size_estimate_bytes: 4_000_000_000,
            qairt_version: "2.45.0",
            chat_template: ChatTemplateSpec {
                system_prompt: SYSTEM_HELPFUL,
                template: CHATML_TEMPLATE,
                assistant_turn: CHATML_ASSISTANT_TURN,
                next_user_turn: CHATML_NEXT_USER_TURN,
            },
        },
    ]
}

/// The registry, in listing order.
pub fn known_models() -> (r: Vec<KnownModel>)
    ensures
        r@ == known_models_spec(),
{
    let r = vec![
        KnownModel {
            name: "phi-3.5-mini",
            url: PHI35_URL,
            arch: "phi3",
            quant: "w4a16",
            size_estimate_bytes: 2_080_000_000,
            qairt_version: "2.43.1",
            chat_template: ChatTemplateSpec {
                system_prompt: SYSTEM_BRIEF,
                template: PHI3_TEMPLATE,
                assistant_turn: PHI3_ASSISTANT_TURN,
                next_user_turn: PHI3_NEXT_USER_TURN,
            },
        },
        KnownModel {
            name: "llama-v3-1-8b-instruct",
            url: LLAMA31_8B_URL,
            arch: "llama",
            quant: "w4a16",
            size_estimate_bytes: 4_500_000_000,
            qairt_version: "2.43.1",
            chat_template: ChatTemplateSpec {
                system_prompt: SYSTEM_CONCISE,
                template: LLAMA3_TEMPLATE,
                assistant_turn: LLAMA3_ASSISTANT_TURN,
                next_user_turn: LLAMA3_NEXT_USER_TURN,
            },
        },
        KnownModel {
            name: "qwen-2-5-7b",
            url: QWEN25_7B_URL,
            arch: "qwen2",
            quant: "w4a16",
            size_estimate_bytes: 4_300_000_000,
            qairt_version: "2.43.1",
            chat_template: ChatTemplateSpec {
                system_prompt: SYSTEM_BRIEF,
                template: CHATML_TEMPLATE,
                assistant_turn: CHATML_ASSISTANT_TURN,
                next_user_turn: CHATML_NEXT_USER_TURN,
            },
        },
        KnownModel {
            name: "qwen3-4b-instruct-2507",
            url: QWEN3_4B_2507_URL,
            arch: "qwen3",
            quant: "w4a16",
            size_estimate_bytes: 2_530_000_000,
            qairt_version: "2.45.0",
            chat_template: ChatTemplateSpec {
                system_prompt: SYSTEM_HELPFUL,
                template: CHATML_TEMPLATE,
                assistant_turn: CHATML_ASSISTANT_TURN,
                next_user_turn: CHATML_NEXT_USER_TURN,
            },
        },
        KnownModel {
            name: "qwen3-4b",
            url: QWEN3_4B_URL,
            arch: "qwen3",
            quant: "w4a16",
            size_estimate_bytes: 2_530_000_000,
            qairt_version: "2.45.0",
            chat_template: ChatTemplateSpec {
                system_prompt: SYSTEM_HELPFUL,
                template: CHATML_TEMPLATE,
                assistant_turn: CHATML_ASSISTANT_TURN,
                next_user_turn: CHATML_NEXT_USER_TURN,
            },
        },
        KnownModel {
            name: "qwen-2-5-vl-7b-instruct",
            url: QWEN25_VL_7B_URL,
            arch: "qwen2-vl",
            quant: "w4a16",
            size_estimate_bytes: 4_000_000_000,
            qairt_version: "2.45.0",
            chat_template: ChatTemplateSpec {
                system_prompt: SYSTEM_HELPFUL,
                template: CHATML_TEMPLATE,
                assistant_turn: CHATML_ASSISTANT_TURN,
                next_user_turn: CHATML_NEXT_USER_TURN,
            },
        },
    ];
    proof {
        assert(r@ =~= known_models_spec());
    }
    r
}

/// The first entry of `ms` named `name`.
pub open spec fn find_known(ms: Seq<KnownModel>, name: Seq<char>) -> Option<KnownModel>
    decreases ms.len(),
{
    if ms.len() == 0 {
        None
    } else if ms[0].name@ == name {
        Some(ms[0])
    } else {
        find_known(ms.skip(1), name)
    }
}

/// Looking past `i` leading entries not named `name` changes nothing.
proof fn lemma_find_known_skip(ms: Seq<KnownModel>, name: Seq<char>, i: int)
    requires
        0 <= i <= ms.len(),
        forall|j: int| 0 <= j < i ==> (#[trigger] ms[j]).name@ != name,
    ensures
        find_known(ms, name) == find_known(ms.skip(i), name),
    decreases i,
{
    if i == 0 {
        assert(ms.skip(0) =~= ms);
    } else {
        assert forall|j: int| 0 <= j < i - 1 implies (#[trigger] ms.skip(1)[j]).name@ != name by {
            assert(ms.skip(1)[j] == ms[j + 1]);
        }
        lemma_find_known_skip(ms.skip(1), name, i - 1);
        assert(ms.skip(1).skip(i - 1) =~= ms.skip(i));
    }
}

impl KnownModel {
    /// The registry entry named `name`, if any.
    pub fn lookup(name: &str) -> (r: Option<KnownModel>)
        ensures
            r == find_known(known_models_spec(), name@),
    {
        let ms = known_models();
        let mut i: usize = 0;
        while i < ms.len()
            invariant
                ms@ == known_models_spec(),
                i <= ms@.len(),
                forall|j: int| 0 <= j < i ==> (#[trigger] ms@[j]).name@ != name@,
            decreases ms@.len() - i,
        {
            if str_eq(ms[i].name, name) {
                proof {
                    lemma_find_known_skip(ms@, name@, i as int);
                    assert(ms@.skip(i as int)[0] == ms@[i as int]);
                }
                return Some(ms[i]);
            }
            i = i + 1;
        }
        proof {
            lemma_find_known_skip(ms@, name@, i as int);
        }
        None
    }
}

// ---------------------------------------------------------------------
// Errors and progress
// ---------------------------------------------------------------------

/// Errors raised by the registry.
#[derive(Debug)]
pub enum RegistryError {
    /// I/O error while reading or writing the cache.
    Io {
        /// Path on which the operation failed.
        path: String,
        /// What the I/O error said.
        message: String,
    },
    /// The name is not in the built-in registry.
    UnknownModel {
        /// The requested name.
        name: String,
        /// The names the registry knows, in order.
        known: Vec<String>,
    },
    /// Downloading the bundle failed.
    Download {
        /// The bundle URL.
        url: String,
        /// What went wrong.
        message: String,
    },
    /// The downloaded archive could not be read.
    Zip {
        /// Path of the archive.
        path: String,
        /// What went wrong.
        message: String,
    },
    /// The extracted bundle has no usable `genie_config.json`.
    BundleInvalid {
        /// Where it was looked for.
        path: String,
    },
}

/// Progress events of a pull.
#[derive(Debug, Clone, PartialEq, Eq)]
pub enum ProgressEvent {
    /// The download started; its size when the server reported one.
    Started {
        /// Total compressed bytes, if known.
        total: Option<u64>,
    },
    /// Bytes written to disk so far.
    Downloaded {
        /// Total bytes downloaded so far.
        bytes: u64,
    },
    /// Extraction has begun.
    Extracting,
    /// The manifest is written; the pull is complete.
    Done {
        /// The model directory.
        model_dir: String,
    },
}

/// The names of the registry, in order.
pub open spec fn known_names() -> Seq<Seq<char>> {
    known_models_spec().map_values(|m: KnownModel| m.name@)
}

/// The entry to pull for `name`, or `UnknownModel` listing every known
/// name.
pub fn resolve_known(name: &str) -> (r: Result<KnownModel, RegistryError>)
    ensures
        match find_known(known_models_spec(), name@) {
            Some(m) => r == Ok::<KnownModel, RegistryError>(m),
            None => r matches Err(RegistryError::UnknownModel { name: n, known }) && n@ == name@
                && string_views(known@) == known_names(),
        },
{
    match KnownModel::lookup(name) {
        Some(m) => Ok(m),
        None => {
            let ms = known_models();
            let mut names: Vec<String> = Vec::new();
            let mut i: usize = 0;
            while i < ms.len()
                invariant
                    ms@ == known_models_spec(),
                    i <= ms@.len(),
                    string_views(names@) == known_names().take(i as int),
                    names@.len() == i,
                    known_names().len() == ms@.len(),
                decreases ms@.len() - i,
            {
                let ghost before = names@;
                proof {
                    assert(known_names()[i as int] == ms@[i as int].name@);
                }
                names.push(owned(ms[i].name));
                proof {
                    assert(names@ == before.push(names@[i as int]));
                    assert(string_views(names@) =~= known_names().take(i + 1)) by {
                        assert(string_views(before) == known_names().take(i as int));
                        assert forall|k: int| 0 <= k < i + 1 implies #[trigger] string_views(
                            names@,
                        )[k] == known_names().take(i + 1)[k] by {
                            if k < i {
                                assert(string_views(names@)[k] == names@[k]@);
                                assert(names@[k] == before[k]);
                                assert(string_views(before)[k] == before[k]@);
                            }
                        }
                    }
                }
                i = i + 1;
            }
            proof {
                assert(known_names().take(i as int) =~= known_names());
            }
            Err(RegistryError::UnknownModel { name: owned(name), known: names })
        },
    }
}

// ---------------------------------------------------------------------
// The manifest a pull writes
// ---------------------------------------------------------------------

/// The drive prefix (`X:`) of a path, if it has one.
pub open spec fn drive_prefix(p: Seq<char>) -> Seq<char> {
    if has_drive_prefix(p) {
        p.take(2)
    } else {
        Seq::empty()
    }
}

/// `parent.join(child)` on Windows, with every `\` then turned into `/`:
/// a child with a drive replaces the parent; one with a root keeps only
/// the parent's drive; otherwise the two are joined with a separator
/// unless the parent is empty, is a bare drive or already ends in one.
pub open spec fn rel_join_spec(parent: Seq<char>, child: Seq<char>) -> Seq<char> {
    let joined = if has_drive_prefix(child) {
        child
    } else if child.len() > 0 && is_sep(child[0]) {
        drive_prefix(parent) + child
    } else if parent.len() == 0 || is_sep(parent.last()) || (has_drive_prefix(parent)
        && parent.len() == 2) {
        parent + child
    } else {
        parent + seq!['\\'] + child
    };
    replace_all(joined, seq!['\\'], seq!['/'])
}

/// Join a bundle-relative directory and a file name the way the manifest
/// records it, with `/` separators.
pub fn rel_join(parent: &str, child: &str) -> (r: String)
    ensures
        r@ == rel_join_spec(parent@, child@),
{
    let pc = to_chars(parent);
    let cc = to_chars(child);
    let child_drive = cc.len() >= 2 && cc[1] == ':' && (('a' <= cc[0] && cc[0] <= 'z') || (
    'A' <= cc[0] && cc[0] <= 'Z'));
    let parent_drive = pc.len() >= 2 && pc[1] == ':' && (('a' <= pc[0] && pc[0] <= 'z') || (
    'A' <= pc[0] && pc[0] <= 'Z'));
    let mut joined = String::new();
    if child_drive {
        joined.append(child);
    } else if cc.len() > 0 && (cc[0] == '\\' || cc[0] == '/') {
        if parent_drive {
            joined.push(pc[0]);
            joined.push(pc[1]);
            proof {
                assert(joined@ =~= pc@.take(2));
            }
        }
        joined.append(child);
    } else if pc.len() == 0 || pc[pc.len() - 1] == '\\' || pc[pc.len() - 1] == '/' || (
    parent_drive && pc.len() == 2) {
        joined.append(parent);
        joined.append(child);
    } else {
        joined.append(parent);
        joined.push('\\');
        joined.append(child);
    }
    proof {
        let joined_spec = if has_drive_prefix(child@) {
            child@
        } else if child@.len() > 0 && is_sep(child@[0]) {
            drive_prefix(parent@) + child@
        } else if parent@.len() == 0 || is_sep(parent@.last()) || (has_drive_prefix(parent@)
            && parent@.len() == 2) {
            parent@ + child@
        } else {
            parent@ + seq!['\\'] + child@
        };
        assert(joined@ =~= joined_spec);
    }
    let back = "\\";
    let fwd = "/";
    proof {
        reveal_strlit("\\");
        reveal_strlit("/");
        assert(back@ =~= seq!['\\']);
        assert(fwd@ =~= seq!['/']);
    }
    replace_str(joined.as_str(), back, fwd)
}

/// The quantization scheme a registry label names; `W8A16` for a label
/// it does not know.
pub open spec fn parse_quant_spec(s: Seq<char>) -> Quant {
    if s == "w4a16"@ {
        Quant::W4A16
    } else if s == "w8a16"@ {
        Quant::W8A16
    } else if s == "int8-w-int16-a"@ {
        Quant::Int8WInt16A
    } else if s == "int8"@ {
        Quant::Int8
    } else if s == "int4"@ {
        Quant::Int4
    } else if s == "fp16"@ {
        Quant::Fp16
    } else {
        Quant::W8A16
    }
}

/// The quantization scheme of a registry label.
pub fn parse_quant(s: &str) -> (r: Quant)
    ensures
        r == parse_quant_spec(s@),
{
    if str_eq(s, "w4a16") {
        Quant::W4A16
    } else if str_eq(s, "w8a16") {
        Quant::W8A16
    } else if str_eq(s, "int8-w-int16-a") {
        Quant::Int8WInt16A
    } else if str_eq(s, "int8") {
        Quant::Int8
    } else if str_eq(s, "int4") {
        Quant::Int4
    } else if str_eq(s, "fp16") {
        Quant::Fp16
    } else {
        Quant::W8A16
    }
}

/// A `u32` JSON value.
pub open spec fn as_u32(v: Option<Json>) -> Option<u32> {
    match v {
        Some(Json::Number(JsonNumber::Unsigned(n))) => if n <= u32::MAX {
            Some(n as u32)
        } else {
            None
        },
        _ => None,
    }
}

/// The context size and vocabulary size a Genie config declares
/// (`dialog.context.size`, `dialog.context.n-vocab`, both `u32`).
pub open spec fn genie_peek_spec(config: Json) -> Option<(u32, u32)> {
    let size = as_u32(json_path(config, seq!["dialog"@, "context"@, "size"@]));
    let vocab = as_u32(json_path(config, seq!["dialog"@, "context"@, "n-vocab"@]));
    match (size, vocab) {
        (Some(s), Some(v)) => Some((s, v)),
        _ => None,
    }
}

/// A `u32` member of a JSON object.
fn u32_member(v: &Json, key: &str) -> (r: Option<u32>)
    ensures
        r == as_u32(json_get(*v, key@)),
{
    match json_member(v, key) {
        Some(Json::Number(JsonNumber::Unsigned(n))) => {
            if *n <= 4294967295u64 {
                Some(*n as u32)
            } else {
                None
            }
        },
        _ => None,
    }
}

/// Read the context and vocabulary sizes off a parsed Genie config;
/// `None` (the bundle is invalid) when either is missing or not a `u32`.
pub fn genie_peek(config: &Json) -> (r: Option<(u32, u32)>)
    ensures
        r == genie_peek_spec(*config),
{
    proof {
        reveal_with_fuel(json_path, 4);
    }
    let ctx = match json_member(config, "dialog") {
        Some(d) => json_member(d, "context"),
        None => None,
    };
    let ctx = match ctx {
        Some(c) => c,
        None => {
            return None;
        },
    };
    let size = u32_member(ctx, "size");
    let vocab = u32_member(ctx, "n-vocab");
    match (size, vocab) {
        (Some(s), Some(v)) => Some((s, v)),
        _ => None,
    }
}

/// The manifest a pull writes for `known`, whose bundle was extracted to
/// `bundle_rel` (relative to the model directory) and declares `context`
/// and `vocab`.
pub fn manifest_for_known(known: &KnownModel, bundle_rel: &str, context: u32, vocab: u32) -> (r:
    Manifest)
    ensures
        r.name@ == known.name@,
        r.version@ == "0.1.0"@,
        r.arch@ == known.arch@,
        r.vocab == vocab,
        r.context == context,
        r.quant == parse_quant_spec(known.quant@),
        r.qnn_sdk@ == known.qairt_version@,
        r.files.model is None,
        r.files.ctx is None,
        r.files.config is None,
        r.files.tokenizer matches Some(t) && t@ == rel_join_spec(bundle_rel@, "tokenizer.json"@),
        r.files.genie_config matches Some(g) && g@ == rel_join_spec(
            bundle_rel@,
            "genie_config.json"@,
        ),
        r.chat_template matches Some(t) && t.system_prompt@ == known.chat_template.system_prompt@
            && t.template@ == known.chat_template.template@ && (t.assistant_turn matches Some(a)
            && a@ == known.chat_template.assistant_turn@) && (t.next_user_turn matches Some(u)
            && u@ == known.chat_template.next_user_turn@),
        r.sha256@.len() == 0,
{
    Manifest {
        name: owned(known.name),
        version: owned("0.1.0"),
        arch: owned(known.arch),
        vocab,
        context,
        quant: parse_quant(known.quant),
        qnn_sdk: owned(known.qairt_version),
        files: ManifestFiles {
            model: None,
            ctx: None,
            tokenizer: Some(rel_join(bundle_rel, "tokenizer.json")),
            config: None,
            genie_config: Some(rel_join(bundle_rel, "genie_config.json")),
        },
        chat_template: Some(
            ChatTemplate {
                system_prompt: owned(known.chat_template.system_prompt),
                template: owned(known.chat_template.template),
                assistant_turn: Some(owned(known.chat_template.assistant_turn)),
                next_user_turn: Some(owned(known.chat_template.next_user_turn)),
            },
        ),
        sha256: Sha256Map::new(),
    }
}

/// An archive entry under a `__MACOSX` directory (resource-fork debris,
/// skipped when extracting).
pub fn is_resource_fork_entry(components: &Vec<String>) -> (r: bool)
    ensures
        r == exists|i: int| 0 <= i < components@.len() && (#[trigger] components@[i])@
            == "__MACOSX"@,
{
    let mut i: usize = 0;
    while i < components.len()
        invariant
            i <= components@.len(),
            forall|j: int| 0 <= j < i ==> (#[trigger] components@[j])@ != "__MACOSX"@,
        decreases components@.len() - i,
    {
        if str_eq(components[i].as_str(), "__MACOSX") {
            return true;
        }
        i = i + 1;
    }
    false
}

} // verus!
