//! The hexrun built-in registry of known NPU-ready models.

use vstd::prelude::*;
use crate::text::str_eq;

verus! {

/// Compile-time chat-template spec of a registry entry.
#[derive(Clone, Copy, Debug)]
pub struct ChatTemplateSpec {
    /// System prompt to use when none is supplied.
    pub system_prompt: &'static str,
    /// Format string with `{system}` and `{user}` placeholders.
    pub template: &'static str,
}

/// A known model entry.
#[derive(Clone, Copy, Debug)]
pub struct KnownModel {
    /// Short name used at the command line (`hexrun pull <name>`).
    pub name: &'static str,
    /// Direct HTTPS URL of the bundle zip.
    pub url: &'static str,
    /// Architecture identifier copied into the manifest.
    pub arch: &'static str,
    /// Quantization scheme as shipped.
    pub quant: &'static str,
    /// Approximate compressed download size, for progress reporting.
    pub size_estimate_bytes: u64,
    /// QAIRT version the bundle was compiled against.
    pub qairt_version: &'static str,
    /// Default chat template of the model family.
    pub chat_template: ChatTemplateSpec,
}

/// Bundle zip of `phi-3.5-mini`.
pub const PHI35_URL: &'static str = "https://qaihub-public-assets.s3.us-west-2.amazonaws.com/qai-hub-models/models/phi_3_5_mini_instruct/releases/v0.52.0/phi_3_5_mini_instruct-genie-w4a16-qualcomm_snapdragon_x_elite.zip";

/// Prompt format of `phi-3.5-mini`.
pub const PHI35_TEMPLATE: &'static str = "<|system|>\n{system}<|end|>\n<|user|>\n{user}<|end|>\n<|assistant|>\n";

/// Bundle zip of `llama-v3-1-8b-instruct`.
pub const LLAMA31_8B_URL: &'static str = "https://qaihub-public-assets.s3.us-west-2.amazonaws.com/qai-hub-models/models/llama_v3_1_8b_instruct/releases/v0.52.0/llama_v3_1_8b_instruct-genie-w4a16-qualcomm_snapdragon_x_elite.zip";

/// Prompt format of `llama-v3-1-8b-instruct`.
pub const LLAMA31_8B_TEMPLATE: &'static str = "<|begin_of_text|><|start_header_id|>system<|end_header_id|>\n\n{system}<|eot_id|><|start_header_id|>user<|end_header_id|>\n\n{user}<|eot_id|><|start_header_id|>assistant<|end_header_id|>\n\n";

/// Bundle zip of `qwen-2-5-7b`.
pub const QWEN25_7B_URL: &'static str = "https://qaihub-public-assets.s3.us-west-2.amazonaws.com/qai-hub-models/models/qwen2_5_7b_instruct/releases/v0.52.0/qwen2_5_7b_instruct-genie-w4a16-qualcomm_snapdragon_x_elite.zip";

/// Prompt format of `qwen-2-5-7b`.
pub const QWEN25_7B_TEMPLATE: &'static str = "<|im_start|>system\n{system}<|im_end|>\n<|im_start|>user\n{user}<|im_end|>\n<|im_start|>assistant\n";

/// The registry, in listing order.
pub open spec fn known_models_spec() -> Seq<KnownModel> {
    seq![
        KnownModel {
            name: "phi-3.5-mini",
            url: PHI35_URL,
            arch: "phi3",
            quant: "w4a16",
            size_estimate_bytes: 2_080_000_000,
            qairt_version: "2.43.1",
            chat_template: ChatTemplateSpec {
                system_prompt: "You are a concise assistant. Answer in 1-2 sentences.",
                template: PHI35_TEMPLATE,
            },
        },
        KnownModel {
            name: "llama-v3-1-8b-instruct",
            url: LLAMA31_8B_URL,
            arch: "llama",
            quant: "w4a16",
            size_estimate_bytes: 4_500_000_000,
            qairt_version: "2.43.1",
            chat_template: ChatTemplateSpec {
                system_prompt: "You are a concise assistant.",
                template: LLAMA31_8B_TEMPLATE,
            },
        },
        KnownModel {
            name: "qwen-2-5-7b",
            url: QWEN25_7B_URL,
            arch: "qwen2",
            quant: "w4a16",
            size_estimate_bytes: 4_300_000_000,
            qairt_version: "2.43.1",
            chat_template: ChatTemplateSpec {
                system_prompt: "You are a concise assistant. Answer in 1-2 sentences.",
                template: QWEN25_7B_TEMPLATE,
            },
        },
    ]
}

/// The registry, in listing order.
pub fn known_models() -> (r: Vec<KnownModel>)
    ensures
        r@ == known_models_spec(),
{
    let r = vec![
        KnownModel {
            name: "phi-3.5-mini",
            url: PHI35_URL,
            arch: "phi3",
            quant: "w4a16",
            size_estimate_bytes: 2_080_000_000,
            qairt_version: "2.43.1",
            chat_template: ChatTemplateSpec {
                system_prompt: "You are a concise assistant. Answer in 1-2 sentences.",
                template: PHI35_TEMPLATE,
            },
        },
        KnownModel {
            name: "llama-v3-1-8b-instruct",
            url: LLAMA31_8B_URL,
            arch: "llama",
            quant: "w4a16",
            size_estimate_bytes: 4_500_000_000,
            qairt_version: "2.43.1",
            chat_template: ChatTemplateSpec {
                system_prompt: "You are a concise assistant.",
                template: LLAMA31_8B_TEMPLATE,
            },
        },
        KnownModel {
            name: "qwen-2-5-7b",
            url: QWEN25_7B_URL,
            arch: "qwen2",
            quant: "w4a16",
            size_estimate_bytes: 4_300_000_000,
            qairt_version: "2.43.1",
            chat_template: ChatTemplateSpec {
                system_prompt: "You are a concise assistant. Answer in 1-2 sentences.",
                template: QWEN25_7B_TEMPLATE,
            },
        },
    ];
    proof {
        assert(r@ =~= known_models_spec());
    }
    r
}

/// The first entry of `ms` named `name`.
pub open spec fn find_known(ms: Seq<KnownModel>, name: Seq<char>) -> Option<KnownModel>
    decreases ms.len(),
{
    if ms.len() == 0 {
        None
    } else if ms[0].name@ == name {
        Some(ms[0])
    } else {
        find_known(ms.skip(1), name)
    }
}

/// Looking past `i` leading entries not named `name` changes nothing.
proof fn lemma_find_known_skip(ms: Seq<KnownModel>, name: Seq<char>, i: int)
    requires
        0 <= i <= ms.len(),
        forall|j: int| 0 <= j < i ==> (#[trigger] ms[j]).name@ != name,
    ensures
        find_known(ms, name) == find_known(ms.skip(i), name),
    decreases i,
{
    if i == 0 {
        assert(ms.skip(0) =~= ms);
    } else {
        assert forall|j: int| 0 <= j < i - 1 implies (#[trigger] ms.skip(1)[j]).name@ != name by {
            assert(ms.skip(1)[j] == ms[j + 1]);
        }
        lemma_find_known_skip(ms.skip(1), name, i - 1);
        assert(ms.skip(1).skip(i - 1) =~= ms.skip(i));
    }
}

impl KnownModel {
    /// The registry entry named `name`, if any.
    pub fn lookup(name: &str) -> (r: Option<KnownModel>)
        ensures
            r == find_known(known_models_spec(), name@),
    {
        let ms = known_models();
        let mut i: usize = 0;
        while i < ms.len()
            invariant
                ms@ == known_models_spec(),
                i <= ms@.len(),
                forall|j: int| 0 <= j < i ==> (#[trigger] ms@[j]).name@ != name@,
            decreases ms@.len() - i,
        {
            if str_eq(ms[i].name, name) {
                proof {
                    lemma_find_known_skip(ms@, name@, i as int);
                    assert(ms@.skip(i as int)[0] == ms@[i as int]);
                }
                return Some(ms[i]);
            }
            i = i + 1;
        }
        proof {
            lemma_find_known_skip(ms@, name@, i as int);
        }
        None
    }
}

} // verus!
