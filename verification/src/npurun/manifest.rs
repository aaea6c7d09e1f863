//! `npurun.json` model manifest format.
//!
//! The manifest is the integrity boundary: file references, sha256s,
//! quant scheme, and the QNN SDK version against which the context binary
//! was compiled. Reading the file is the caller's business; this module
//! holds the value and its rules.

use vstd::prelude::*;
use crate::digest_map::Sha256Map;
use crate::rules::{
    check_safe_relpath, debug_quoted, is_semverish, is_sha256_hex, is_sha256_hex_spec,
    parse_semver, parse_semver_spec, quote_debug, relpath_error,
};
use crate::text::{contains_seq, owned, replace_all, replace_str, str_contains};

verus! {

/// Quantization schemes npurun understands. The HTP backend on
/// Snapdragon X requires one of these.
#[derive(Clone, Copy, Debug, PartialEq, Eq, Structural)]
pub enum Quant {
    /// Per-tensor INT8 weights and activations.
    Int8,
    /// Per-channel INT8 weights with INT16 activations.
    Int8WInt16A,
    /// 4-bit weights with 16-bit activations.
    W4A16,
    /// 8-bit weights with 16-bit activations.
    W8A16,
    /// 4-bit group-quantized weights.
    Int4,
    /// FP16 (not generally supported on HTP).
    Fp16,
}

/// Files referenced by a manifest, relative to the manifest's directory.
#[derive(Clone, Debug, Default)]
pub struct ManifestFiles {
    /// ONNX model file (ORT path).
    pub model: Option<String>,
    /// QNN context binary.
    pub ctx: Option<String>,
    /// HuggingFace-style `tokenizer.json`.
    pub tokenizer: Option<String>,
    /// Architecture/runtime config file.
    pub config: Option<String>,
    /// Genie `genie_config.json` (the LLM-NPU path).
    pub genie_config: Option<String>,
}

/// Chat-template configuration: single-turn wrapping through `template`,
/// multi-turn transcripts through the two optional turn formats.
#[derive(Clone, Debug)]
pub struct ChatTemplate {
    /// Default system prompt (substituted into `{system}`).
    pub system_prompt: String,
    /// First-turn format with `{system}` and `{user}` placeholders.
    pub template: String,
    /// Format of an earlier assistant reply, with `{assistant}`.
    pub assistant_turn: Option<String>,
    /// Format of a follow-up user turn, with `{user}`.
    pub next_user_turn: Option<String>,
}

/// Role of a chat message (the OpenAI / Ollama roles).
#[derive(Clone, Copy, Debug, PartialEq, Eq, Structural)]
pub enum ChatRole {
    /// System / instruction message.
    System,
    /// A user turn.
    User,
    /// An assistant turn.
    Assistant,
}

/// A single chat message.
#[derive(Clone, Debug)]
pub struct ChatMessage {
    /// The role of the speaker.
    pub role: ChatRole,
    /// Message text.
    pub content: String,
}

/// A `npurun.json` manifest.
pub struct Manifest {
    /// Registry name, e.g. `phi-3.5-mini`.
    pub name: String,
    /// Manifest version.
    pub version: String,
    /// Model architecture identifier.
    pub arch: String,
    /// Tokenizer vocabulary size.
    pub vocab: u32,
    /// Maximum context length.
    pub context: u32,
    /// Quantization scheme.
    pub quant: Quant,
    /// QNN SDK version the context binary was compiled against.
    pub qnn_sdk: String,
    /// Files of the bundle.
    pub files: ManifestFiles,
    /// Chat-template wrapping for prompts.
    pub chat_template: Option<ChatTemplate>,
    /// sha256 digest of each file, keyed by field name.
    pub sha256: Sha256Map,
}

/// Errors raised while reading or validating a manifest.
#[derive(Debug)]
pub enum ManifestError {
    /// Reading the manifest file failed.
    Io {
        /// Path of the manifest file.
        path: String,
        /// What the I/O error said.
        message: String,
    },
    /// The manifest is not valid JSON or does not match the schema.
    Parse {
        /// Path of the manifest file.
        path: String,
        /// What the JSON error said.
        message: String,
    },
    /// A field failed semantic validation.
    Invalid(String),
    /// The runtime QNN SDK differs from the manifest's by major version.
    SdkMajorMismatch {
        /// The version recorded in the manifest.
        manifest: String,
        /// The live runtime version.
        runtime: String,
    },
}

// ---------------------------------------------------------------------
// Validation
// ---------------------------------------------------------------------

/// The refusal message for an optional bundle path, if any.
pub open spec fn optional_path_error(field: Seq<char>, p: Option<String>) -> Option<Seq<char>> {
    match p {
        Some(s) => relpath_error(field, s@),
        None => None,
    }
}

/// Key of the first entry whose digest is not 64 lowercase hex digits.
pub open spec fn first_bad_digest(s: Seq<(Seq<char>, Seq<char>)>) -> Option<Seq<char>>
    decreases s.len(),
{
    if s.len() == 0 {
        None
    } else if !is_sha256_hex_spec(s[0].1) {
        Some(s[0].0)
    } else {
        first_bad_digest(s.skip(1))
    }
}

/// The message of the first rule the manifest breaks, in the order the
/// rules are checked; `None` when the manifest is valid.
pub open spec fn validation_error(m: Manifest) -> Option<Seq<char>> {
    if m.name@.len() == 0 {
        Some("name is empty"@)
    } else if m.version@.len() == 0 {
        Some("version is empty"@)
    } else if m.vocab == 0 {
        Some("vocab is 0"@)
    } else if m.context == 0 {
        Some("context is 0"@)
    } else if !(parse_semver_spec(m.qnn_sdk@) is Some) {
        Some("qnn_sdk "@ + debug_quoted(m.qnn_sdk@) + " is not in MAJOR.MINOR.PATCH form"@)
    } else if optional_path_error("files.model"@, m.files.model) is Some {
        optional_path_error("files.model"@, m.files.model)
    } else if optional_path_error("files.tokenizer"@, m.files.tokenizer) is Some {
        optional_path_error("files.tokenizer"@, m.files.tokenizer)
    } else if optional_path_error("files.ctx"@, m.files.ctx) is Some {
        optional_path_error("files.ctx"@, m.files.ctx)
    } else if optional_path_error("files.config"@, m.files.config) is Some {
        optional_path_error("files.config"@, m.files.config)
    } else if optional_path_error("files.genie_config"@, m.files.genie_config) is Some {
        optional_path_error("files.genie_config"@, m.files.genie_config)
    } else if m.files.model is None && m.files.genie_config is None {
        Some(
            "manifest must specify either files.model (ORT path) or files.genie_config (Genie path)"@,
        )
    } else if first_bad_digest(m.sha256@) is Some {
        Some("sha256["@ + first_bad_digest(m.sha256@).unwrap() + "] is not 64 lowercase hex chars"@)
    } else if m.chat_template is Some && !contains_seq(
        m.chat_template.unwrap().template@,
        "{user}"@,
    ) {
        Some("chat_template.template must contain {user} placeholder"@)
    } else {
        None
    }
}

/// When no digest is malformed, every digest is 64 lowercase hex
/// characters.
pub proof fn lemma_no_bad_digest(s: Seq<(Seq<char>, Seq<char>)>)
    requires
        first_bad_digest(s) is None,
    ensures
        forall|i: int| 0 <= i < s.len() ==> is_sha256_hex_spec(#[trigger] s[i].1),
    decreases s.len(),
{
    if s.len() > 0 {
        lemma_no_bad_digest(s.skip(1));
        assert forall|i: int| 0 <= i < s.len() implies is_sha256_hex_spec(#[trigger] s[i].1) by {
            if i > 0 {
                assert(s.skip(1)[i - 1] == s[i]);
            }
        }
    }
}

/// A manifest that passes validation has a name and a version, a
/// non-zero vocabulary and context, an SDK version in
/// `MAJOR.MINOR.PATCH` form, a model file or a Genie config, only
/// well-formed digests, and a chat template (if any) with a `{user}`
/// placeholder.
pub proof fn lemma_valid_manifest_fields(m: Manifest)
    requires
        validation_error(m) is None,
    ensures
        m.name@.len() > 0,
        m.version@.len() > 0,
        m.vocab != 0,
        m.context != 0,
        parse_semver_spec(m.qnn_sdk@) is Some,
        m.files.model is Some || m.files.genie_config is Some,
        forall|i: int| 0 <= i < m.sha256@.len() ==> is_sha256_hex_spec(#[trigger] m.sha256@[i].1),
        m.chat_template matches Some(t) ==> contains_seq(t.template@, "{user}"@),
{
    lemma_no_bad_digest(m.sha256@);
}

/// Check an optional bundle path.
fn check_optional(field: &str, p: &Option<String>) -> (r: Result<(), ManifestError>)
    ensures
        match optional_path_error(field@, *p) {
            None => r is Ok,
            Some(m) => r matches Err(ManifestError::Invalid(e)) && e@ == m,
        },
{
    match p {
        Some(s) => match check_safe_relpath(field, s.as_str()) {
            Ok(()) => Ok(()),
            Err(m) => Err(ManifestError::Invalid(m)),
        },
        None => Ok(()),
    }
}

/// Key of the first entry whose digest is malformed.
pub fn find_bad_digest(m: &Sha256Map) -> (r: Option<String>)
    ensures
        match r {
            Some(k) => first_bad_digest(m@) == Some(k@),
            None => first_bad_digest(m@) is None,
        },
{
    let mut i: usize = 0;
    proof {
        assert(m@.skip(0) =~= m@);
    }
    while i < m.len()
        invariant
            i <= m@.len(),
            first_bad_digest(m@) == first_bad_digest(m@.skip(i as int)),
        decreases m@.len() - i,
    {
        let (k, v) = m.entry(i);
        proof {
            assert(m@.skip(i as int)[0] == m@[i as int]);
            assert(m@.skip(i as int).skip(1) =~= m@.skip(i + 1));
        }
        if !is_sha256_hex(v.as_str()) {
            return Some(owned(k.as_str()));
        }
        i = i + 1;
    }
    None
}

impl Manifest {
    /// Validate field invariants; `Err(Invalid(message))` names the first
    /// rule broken.
    pub fn validate(&self) -> (r: Result<(), ManifestError>)
        ensures
            match validation_error(*self) {
                None => r is Ok,
                Some(m) => r matches Err(ManifestError::Invalid(e)) && e@ == m,
            },
    {
        if self.name.as_str().is_empty() {
            return Err(ManifestError::Invalid(owned("name is empty")));
        }
        if self.version.as_str().is_empty() {
            return Err(ManifestError::Invalid(owned("version is empty")));
        }
        if self.vocab == 0 {
            return Err(ManifestError::Invalid(owned("vocab is 0")));
        }
        if self.context == 0 {
            return Err(ManifestError::Invalid(owned("context is 0")));
        }
        if !is_semverish(self.qnn_sdk.as_str()) {
            let mut m = owned("qnn_sdk ");
            let q = quote_debug(self.qnn_sdk.as_str());
            m.append(q.as_str());
            m.append(" is not in MAJOR.MINOR.PATCH form");
            return Err(ManifestError::Invalid(m));
        }
        check_optional("files.model", &self.files.model)?;
        check_optional("files.tokenizer", &self.files.tokenizer)?;
        check_optional("files.ctx", &self.files.ctx)?;
        check_optional("files.config", &self.files.config)?;
        check_optional("files.genie_config", &self.files.genie_config)?;
        if self.files.model.is_none() && self.files.genie_config.is_none() {
            return Err(
                ManifestError::Invalid(
                    owned(
                        "manifest must specify either files.model (ORT path) or files.genie_config (Genie path)",
                    ),
                ),
            );
        }
        match find_bad_digest(&self.sha256) {
            Some(k) => {
                let mut m = owned("sha256[");
                m.append(k.as_str());
                m.append("] is not 64 lowercase hex chars");
                return Err(ManifestError::Invalid(m));
            },
            None => {},
        }
        match &self.chat_template {
            Some(t) => {
                if !str_contains(t.template.as_str(), "{user}") {
                    return Err(
                        ManifestError::Invalid(
                            owned("chat_template.template must contain {user} placeholder"),
                        ),
                    );
                }
            },
            None => {},
        }
        Ok(())
    }

    /// Compare `qnn_sdk` against the runtime's version: a differing major
    /// is refused, minor and patch drift pass; an unparseable runtime
    /// version skips the check.
    pub fn check_sdk_compat(&self, runtime_sdk: &str) -> (r: Result<(), ManifestError>)
        ensures
            match parse_semver_spec(self.qnn_sdk@) {
                None => r matches Err(ManifestError::Invalid(e)) && e@ == "qnn_sdk "@
                    + debug_quoted(self.qnn_sdk@) + " unparseable"@,
                Some(mv) => match parse_semver_spec(runtime_sdk@) {
                    None => r is Ok,
                    Some(rv) => if mv.0 != rv.0 {
                        r matches Err(ManifestError::SdkMajorMismatch { manifest, runtime })
                            && manifest@ == self.qnn_sdk@ && runtime@ == runtime_sdk@
                    } else {
                        r is Ok
                    },
                },
            },
    {
        let m = match parse_semver(self.qnn_sdk.as_str()) {
            Some(v) => v,
            None => {
                let mut msg = owned("qnn_sdk ");
                let q = quote_debug(self.qnn_sdk.as_str());
                msg.append(q.as_str());
                msg.append(" unparseable");
                return Err(ManifestError::Invalid(msg));
            },
        };
        let r = match parse_semver(runtime_sdk) {
            Some(v) => v,
            None => return Ok(()),
        };
        if m.0 != r.0 {
            return Err(
                ManifestError::SdkMajorMismatch {
                    manifest: owned(self.qnn_sdk.as_str()),
                    runtime: owned(runtime_sdk),
                },
            );
        }
        Ok(())
    }

    /// Whether the runtime's SDK shares this manifest's major version but
    /// not its minor one: `check_sdk_compat` passes, and the context
    /// binary may need recompiling (worth a warning).
    pub fn sdk_minor_drift(&self, runtime_sdk: &str) -> (r: bool)
        ensures
            r == match (parse_semver_spec(self.qnn_sdk@), parse_semver_spec(runtime_sdk@)) {
                (Some(mv), Some(rv)) => mv.0 == rv.0 && mv.1 != rv.1,
                _ => false,
            },
    {
        match (parse_semver(self.qnn_sdk.as_str()), parse_semver(runtime_sdk)) {
            (Some(m), Some(r)) => m.0 == r.0 && m.1 != r.1,
            _ => false,
        }
    }
}

// ---------------------------------------------------------------------
// Chat templates
// ---------------------------------------------------------------------

/// `template` with `{system}` and then `{user}` substituted.
pub open spec fn fill(template: Seq<char>, system: Seq<char>, user: Seq<char>) -> Seq<char> {
    replace_all(replace_all(template, "{system}"@, system), "{user}"@, user)
}

/// Content of the last user message.
pub open spec fn last_user(ms: Seq<ChatMessage>) -> Option<Seq<char>>
    decreases ms.len(),
{
    if ms.len() == 0 {
        None
    } else if ms.last().role == ChatRole::User {
        Some(ms.last().content@)
    } else {
        last_user(ms.drop_last())
    }
}

/// Content of the first system message.
pub open spec fn first_system(ms: Seq<ChatMessage>) -> Option<Seq<char>>
    decreases ms.len(),
{
    if ms.len() == 0 {
        None
    } else if first_system(ms.drop_last()) is Some {
        first_system(ms.drop_last())
    } else if ms.last().role == ChatRole::System {
        Some(ms.last().content@)
    } else {
        None
    }
}

/// The system prompt a transcript uses: the first system message, else
/// the template's default.
pub open spec fn chosen_system(t: ChatTemplate, ms: Seq<ChatMessage>) -> Seq<char> {
    match first_system(ms) {
        Some(s) => s,
        None => t.system_prompt@,
    }
}

/// What one message contributes to a multi-turn transcript, given whether
/// a user turn was already emitted before it. Assistant turns before the
/// first user turn, and all system messages, contribute nothing.
pub open spec fn turn_piece(
    t: ChatTemplate,
    system: Seq<char>,
    m: ChatMessage,
    started: bool,
) -> Seq<char> {
    match m.role {
        ChatRole::User => if started {
            replace_all(t.next_user_turn.unwrap()@, "{user}"@, m.content@)
        } else {
            fill(t.template@, system, m.content@)
        },
        ChatRole::Assistant => if started {
            replace_all(t.assistant_turn.unwrap()@, "{assistant}"@, m.content@)
        } else {
            Seq::empty()
        },
        ChatRole::System => Seq::empty(),
    }
}

/// The multi-turn transcript of `ms`, message by message.
pub open spec fn render_turns(t: ChatTemplate, system: Seq<char>, ms: Seq<ChatMessage>) -> Seq<
    char,
>
    decreases ms.len(),
{
    if ms.len() == 0 {
        Seq::empty()
    } else {
        render_turns(t, system, ms.drop_last()) + turn_piece(
            t,
            system,
            ms.last(),
            last_user(ms.drop_last()) is Some,
        )
    }
}

/// What `wrap_chat` returns: `None` when there is no user message; the
/// full transcript when both turn formats are set; otherwise the last user
/// message wrapped through `template`.
pub open spec fn wrap_chat_spec(t: ChatTemplate, ms: Seq<ChatMessage>) -> Option<Seq<char>> {
    if last_user(ms) is None {
        None
    } else if t.assistant_turn is Some && t.next_user_turn is Some {
        Some(render_turns(t, chosen_system(t, ms), ms))
    } else {
        Some(fill(t.template@, chosen_system(t, ms), last_user(ms).unwrap()))
    }
}

/// With no system message there is no first one.
proof fn lemma_no_system(ms: Seq<ChatMessage>)
    requires
        forall|j: int| 0 <= j < ms.len() ==> (#[trigger] ms[j]).role != ChatRole::System,
    ensures
        first_system(ms) is None,
    decreases ms.len(),
{
    if ms.len() > 0 {
        assert forall|j: int| 0 <= j < ms.drop_last().len() implies (
        #[trigger] ms.drop_last()[j]).role != ChatRole::System by {
            assert(ms.drop_last()[j] == ms[j]);
        }
        lemma_no_system(ms.drop_last());
    }
}

/// The first system message is the one at `i` when none comes before it.
proof fn lemma_first_system_at(ms: Seq<ChatMessage>, i: int)
    requires
        0 <= i < ms.len(),
        ms[i].role == ChatRole::System,
        forall|j: int| 0 <= j < i ==> (#[trigger] ms[j]).role != ChatRole::System,
    ensures
        first_system(ms) == Some(ms[i].content@),
    decreases ms.len(),
{
    if i == ms.len() - 1 {
        assert forall|j: int| 0 <= j < ms.drop_last().len() implies (
        #[trigger] ms.drop_last()[j]).role != ChatRole::System by {
            assert(ms.drop_last()[j] == ms[j]);
        }
        lemma_no_system(ms.drop_last());
    } else {
        assert(ms.drop_last()[i] == ms[i]);
        assert forall|j: int| 0 <= j < i implies (#[trigger] ms.drop_last()[j]).role
            != ChatRole::System by {
            assert(ms.drop_last()[j] == ms[j]);
        }
        lemma_first_system_at(ms.drop_last(), i);
    }
}

/// With no user message there is no last one.
proof fn lemma_no_user(ms: Seq<ChatMessage>)
    requires
        forall|j: int| 0 <= j < ms.len() ==> (#[trigger] ms[j]).role != ChatRole::User,
    ensures
        last_user(ms) is None,
    decreases ms.len(),
{
    if ms.len() > 0 {
        assert forall|j: int| 0 <= j < ms.drop_last().len() implies (
        #[trigger] ms.drop_last()[j]).role != ChatRole::User by {
            assert(ms.drop_last()[j] == ms[j]);
        }
        lemma_no_user(ms.drop_last());
    }
}

/// The last user message is the one at `l` when none comes after it.
proof fn lemma_last_user_at(ms: Seq<ChatMessage>, l: int)
    requires
        0 <= l < ms.len(),
        ms[l].role == ChatRole::User,
        forall|j: int| l < j < ms.len() ==> (#[trigger] ms[j]).role != ChatRole::User,
    ensures
        last_user(ms) == Some(ms[l].content@),
    decreases ms.len(),
{
    if l < ms.len() - 1 {
        assert(ms.drop_last()[l] == ms[l]);
        assert forall|j: int| l < j < ms.drop_last().len() implies (
        #[trigger] ms.drop_last()[j]).role != ChatRole::User by {
            assert(ms.drop_last()[j] == ms[j]);
        }
        lemma_last_user_at(ms.drop_last(), l);
    }
}

/// A run with a user message at `k` has a last user message.
proof fn lemma_some_user(ms: Seq<ChatMessage>, k: int)
    requires
        0 <= k < ms.len(),
        ms[k].role == ChatRole::User,
    ensures
        last_user(ms) is Some,
    decreases ms.len(),
{
    if ms.last().role != ChatRole::User {
        assert(k < ms.len() - 1);
        assert(ms.drop_last()[k] == ms[k]);
        lemma_some_user(ms.drop_last(), k);
    }
}

/// Messages before the first user turn render to nothing.
proof fn lemma_render_before_first_user(
    t: ChatTemplate,
    system: Seq<char>,
    ms: Seq<ChatMessage>,
    j: int,
)
    requires
        0 <= j <= ms.len(),
        forall|x: int| 0 <= x < j ==> (#[trigger] ms[x]).role != ChatRole::User,
    ensures
        render_turns(t, system, ms.take(j)) == Seq::<char>::empty(),
    decreases j,
{
    if j > 0 {
        lemma_render_before_first_user(t, system, ms, j - 1);
        let p = ms.take(j);
        assert(p.drop_last() =~= ms.take(j - 1));
        assert(p.last() == ms[j - 1]);
        assert forall|x: int| 0 <= x < ms.take(j - 1).len() implies (
        #[trigger] ms.take(j - 1)[x]).role != ChatRole::User by {
            assert(ms.take(j - 1)[x] == ms[x]);
        }
        lemma_no_user(ms.take(j - 1));
        assert(render_turns(t, system, p) =~= Seq::<char>::empty());
    }
}

/// The messages up to and including the first user turn render to that
/// turn filled through the first-turn template.
proof fn lemma_render_first_turn(t: ChatTemplate, system: Seq<char>, ms: Seq<ChatMessage>, k: int)
    requires
        0 <= k < ms.len(),
        ms[k].role == ChatRole::User,
        forall|x: int| 0 <= x < k ==> (#[trigger] ms[x]).role != ChatRole::User,
    ensures
        render_turns(t, system, ms.take(k + 1)) == fill(t.template@, system, ms[k].content@),
{
    lemma_render_before_first_user(t, system, ms, k);
    let p = ms.take(k + 1);
    assert(p.drop_last() =~= ms.take(k));
    assert(p.last() == ms[k]);
    assert forall|x: int| 0 <= x < ms.take(k).len() implies (#[trigger] ms.take(k)[x]).role
        != ChatRole::User by {
        assert(ms.take(k)[x] == ms[x]);
    }
    lemma_no_user(ms.take(k));
    assert(render_turns(t, system, p) =~= fill(t.template@, system, ms[k].content@));
}

/// What the first `n` messages render to begins what all of them do.
proof fn lemma_render_prefix(t: ChatTemplate, system: Seq<char>, ms: Seq<ChatMessage>, n: int)
    requires
        0 <= n <= ms.len(),
    ensures
        render_turns(t, system, ms.take(n)).len() <= render_turns(t, system, ms).len(),
        render_turns(t, system, ms).take(render_turns(t, system, ms.take(n)).len() as int)
            == render_turns(t, system, ms.take(n)),
    decreases ms.len(),
{
    if n == ms.len() {
        assert(ms.take(n) =~= ms);
        assert(render_turns(t, system, ms).take(render_turns(t, system, ms).len() as int)
            =~= render_turns(t, system, ms));
    } else {
        lemma_render_prefix(t, system, ms.drop_last(), n);
        assert(ms.drop_last().take(n) =~= ms.take(n));
        let a = render_turns(t, system, ms.drop_last());
        let r = render_turns(t, system, ms.take(n));
        let b = turn_piece(t, system, ms.last(), last_user(ms.drop_last()) is Some);
        assert(render_turns(t, system, ms) == a + b);
        assert((a + b).take(r.len() as int) =~= a.take(r.len() as int));
    }
}

/// A template without both turn formats renders one turn: `{system}`
/// becomes the first system message, when there is one, and `{user}` the
/// last user message.
pub proof fn lemma_single_turn_uses_first_system(
    t: ChatTemplate,
    ms: Seq<ChatMessage>,
    i: int,
    l: int,
)
    requires
        0 <= i < ms.len(),
        ms[i].role == ChatRole::System,
        forall|j: int| 0 <= j < i ==> (#[trigger] ms[j]).role != ChatRole::System,
        0 <= l < ms.len(),
        ms[l].role == ChatRole::User,
        forall|j: int| l < j < ms.len() ==> (#[trigger] ms[j]).role != ChatRole::User,
        !(t.assistant_turn is Some && t.next_user_turn is Some),
    ensures
        wrap_chat_spec(t, ms) == Some(fill(t.template@, ms[i].content@, ms[l].content@)),
{
    lemma_first_system_at(ms, i);
    lemma_last_user_at(ms, l);
}

/// A template with both turn formats renders a transcript that opens with
/// the first user turn filled through the first-turn template, `{system}`
/// there being the first system message, when there is one.
pub proof fn lemma_transcript_opens_with_first_system(
    t: ChatTemplate,
    ms: Seq<ChatMessage>,
    i: int,
    k: int,
)
    requires
        0 <= i < ms.len(),
        ms[i].role == ChatRole::System,
        forall|j: int| 0 <= j < i ==> (#[trigger] ms[j]).role != ChatRole::System,
        0 <= k < ms.len(),
        ms[k].role == ChatRole::User,
        forall|j: int| 0 <= j < k ==> (#[trigger] ms[j]).role != ChatRole::User,
        t.assistant_turn is Some,
        t.next_user_turn is Some,
    ensures
        wrap_chat_spec(t, ms) matches Some(x) && ({
            let first = fill(t.template@, ms[i].content@, ms[k].content@);
            first.len() <= x.len() && x.take(first.len() as int) == first
        }),
{
    lemma_first_system_at(ms, i);
    lemma_some_user(ms, k);
    let s = ms[i].content@;
    lemma_render_first_turn(t, s, ms, k);
    lemma_render_prefix(t, s, ms, k + 1);
}

impl ChatTemplate {
    /// Wrap one user prompt through the first-turn template: `{system}`
    /// becomes the default system prompt, `{user}` the prompt.
    pub fn wrap(&self, user: &str) -> (r: String)
        ensures
            r@ == fill(self.template@, self.system_prompt@, user@),
    {
        proof {
            reveal_strlit("{system}");
            reveal_strlit("{user}");
        }
        let a = replace_str(self.template.as_str(), "{system}", self.system_prompt.as_str());
        replace_str(a.as_str(), "{user}", user)
    }

    fn fill_first(&self, system: &str, user: &str) -> (r: String)
        ensures
            r@ == fill(self.template@, system@, user@),
    {
        proof {
            reveal_strlit("{system}");
            reveal_strlit("{user}");
        }
        let a = replace_str(self.template.as_str(), "{system}", system);
        replace_str(a.as_str(), "{user}", user)
    }

    /// Build a transcript from chat messages: the first system message
    /// overrides the default system prompt; the first user message opens
    /// through `template`; later assistant and user messages go through
    /// `assistant_turn` and `next_user_turn`. Without both turn formats,
    /// only the last user message is wrapped. `None` when no message is
    /// from the user.
    pub fn wrap_chat(&self, messages: &[ChatMessage]) -> (r: Option<String>)
        ensures
            match wrap_chat_spec(*self, messages@) {
                None => r is None,
                Some(s) => r matches Some(x) && x@ == s,
            },
    {
        proof {
            reveal_strlit("{user}");
            reveal_strlit("{assistant}");
        }
        let mut system: Option<&String> = None;
        let mut last: Option<&String> = None;
        let mut i: usize = 0;
        while i < messages.len()
            invariant
                i <= messages@.len(),
                match system {
                    Some(s) => first_system(messages@.take(i as int)) == Some(s@),
                    None => first_system(messages@.take(i as int)) is None,
                },
                match last {
                    Some(s) => last_user(messages@.take(i as int)) == Some(s@),
                    None => last_user(messages@.take(i as int)) is None,
                },
            decreases messages@.len() - i,
        {
            proof {
                assert(messages@.take(i + 1).drop_last() =~= messages@.take(i as int));
                assert(messages@.take(i + 1).last() == messages@[i as int]);
            }
            let m = &messages[i];
            if m.role == ChatRole::System && system.is_none() {
                system = Some(&m.content);
            }
            if m.role == ChatRole::User {
                last = Some(&m.content);
            }
            i = i + 1;
        }
        proof {
            assert(messages@.take(messages@.len() as int) =~= messages@);
        }
        let last_content = match last {
            Some(s) => s,
            None => return None,
        };
        let sys: &str = match system {
            Some(s) => s.as_str(),
            None => self.system_prompt.as_str(),
        };
        match (&self.assistant_turn, &self.next_user_turn) {
            (Some(asst_t), Some(user_t)) => {
                let mut out = String::new();
                let mut started = false;
                let mut j: usize = 0;
                while j < messages.len()
                    invariant
                        j <= messages@.len(),
                        sys@ == chosen_system(*self, messages@),
                        self.assistant_turn == Some(*asst_t),
                        self.next_user_turn == Some(*user_t),
                        out@ == render_turns(*self, sys@, messages@.take(j as int)),
                        started == last_user(messages@.take(j as int)) is Some,
                    decreases messages@.len() - j,
                {
                    proof {
                        reveal_strlit("{user}");
                        reveal_strlit("{assistant}");
                        assert(messages@.take(j + 1).drop_last() =~= messages@.take(j as int));
                        assert(messages@.take(j + 1).last() == messages@[j as int]);
                    }
                    let m = &messages[j];
                    match m.role {
                        ChatRole::User => {
                            if !started {
                                let piece = self.fill_first(sys, m.content.as_str());
                                out.append(piece.as_str());
                                started = true;
                            } else {
                                let piece = replace_str(
                                    user_t.as_str(),
                                    "{user}",
                                    m.content.as_str(),
                                );
                                out.append(piece.as_str());
                            }
                        },
                        ChatRole::Assistant => {
                            if started {
                                let piece = replace_str(
                                    asst_t.as_str(),
                                    "{assistant}",
                                    m.content.as_str(),
                                );
                                out.append(piece.as_str());
                            } else {
                                proof {
                                    assert(out@ + Seq::<char>::empty() =~= out@);
                                }
                            }
                        },
                        ChatRole::System => {
                            proof {
                                assert(out@ + Seq::<char>::empty() =~= out@);
                            }
                        },
                    }
                    j = j + 1;
                }
                proof {
                    assert(messages@.take(messages@.len() as int) =~= messages@);
                }
                Some(out)
            },
            _ => Some(self.fill_first(sys, last_content.as_str())),
        }
    }
}

} // verus!
