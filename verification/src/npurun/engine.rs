//! Engine-side decisions of the npurun runtime: backend choice, context
//! tiers compiled into a Genie bundle, and how prompts reach the dialog.
//! Driving the NPU itself is the caller's business.

use vstd::prelude::*;
use crate::npurun::manifest::{
    ChatMessage, ChatTemplate, Manifest, ManifestError, fill, wrap_chat_spec,
};
use crate::text::{
    all_digits, decimal, fmt_u64, is_digit, is_digit_exec, occurs_at, occurs_at_exec, owned,
    parse_u32, parse_u32_spec, to_chars,
};
use crate::genie::SentenceCode;
use crate::json::{
    Json, JsonNumber, json_get, json_member, json_path, json_text, json_to_string, member_index,
    put_member, split_member,
};

verus! {

/// Inference backend selection.
#[derive(Clone, Copy, Debug, PartialEq, Eq, Structural)]
pub enum Backend {
    /// Qualcomm Genie LLM runtime (the default for LLMs).
    Genie,
    /// ONNX Runtime via the QNN Execution Provider.
    Ort,
    /// CPU fallback.
    Cpu,
}

impl Default for Backend {
    fn default() -> (r: Self)
        ensures
            r == Backend::Genie,
    {
        Backend::Genie
    }
}

/// Engine configuration.
#[derive(Clone, Debug)]
pub struct EngineConfig {
    /// Directory containing `npurun.json` and the files it references.
    pub model_dir: String,
    /// Backend to use.
    pub backend: Backend,
    /// Maximum tokens to generate per call (advisory).
    pub max_tokens: usize,
    /// Pin the dialog to this compiled context tier.
    pub ctx: Option<u32>,
}

impl Default for EngineConfig {
    fn default() -> (r: Self)
        ensures
            r.model_dir@.len() == 0,
            r.backend == Backend::Genie,
            r.max_tokens == 512,
            r.ctx is None,
    {
        EngineConfig { model_dir: String::new(), backend: Backend::Genie, max_tokens: 512, ctx: None }
    }
}

/// Errors raised by the engine.
#[derive(Debug)]
pub enum EngineError {
    /// Model directory does not exist.
    ModelDirMissing(String),
    /// Manifest could not be loaded.
    Manifest(ManifestError),
    /// The manifest declares no `files.genie_config`.
    NotAGenieBundle {
        /// Path of the manifest.
        path: String,
    },
    /// The requested backend is not compiled in.
    FeatureDisabled(Backend),
    /// A chat request had no user message.
    NoUserMessage,
    /// The model has no chat template.
    NoChatTemplate {
        /// Manifest name of the model.
        name: String,
    },
    /// Reading or parsing the bundle's `genie_config.json` failed.
    GenieConfigRead {
        /// Path of the config file.
        path: String,
        /// What went wrong.
        message: String,
    },
    /// The requested context tier is not compiled into the bundle.
    ContextTierUnavailable {
        /// The requested tier.
        requested: u32,
        /// The tiers the bundle has, ascending.
        available: Vec<u32>,
    },
}

// ---------------------------------------------------------------------
// Context tiers
// ---------------------------------------------------------------------

/// The leading run of ASCII digits of `s`.
pub open spec fn digit_prefix(s: Seq<char>) -> Seq<char>
    decreases s.len(),
{
    if s.len() > 0 && is_digit(s[0]) {
        seq![s[0]] + digit_prefix(s.skip(1))
    } else {
        Seq::empty()
    }
}

/// The tier named by a `cl` token at index `i` of a shard file name: the
/// digits right after `cl`, read as a `u32`.
pub open spec fn tier_at(name: Seq<char>, i: int) -> Option<u32> {
    if occurs_at(name, "cl"@, i) {
        parse_u32_spec(digit_prefix(name.skip(i + 2)))
    } else {
        None
    }
}

/// Some `cl` token of `name` names tier `t`.
pub open spec fn name_has_tier(name: Seq<char>, t: u32) -> bool {
    exists|i: int| #[trigger] tier_at(name, i) == Some(t)
}

/// Some `cl` token before index `n` of `name` names tier `t`.
pub open spec fn name_has_tier_below(name: Seq<char>, t: u32, n: int) -> bool {
    exists|i: int| 0 <= i < n && #[trigger] tier_at(name, i) == Some(t)
}

/// The entry `b` of `ctx-bins` names tier `t`: it is a string with a
/// `clNNNN` token for `t`.
pub open spec fn bin_names_tier(b: Json, t: u32) -> bool {
    match b {
        Json::Str(s) => name_has_tier(s@, t),
        _ => false,
    }
}

/// Some entry before index `n` of `bins` names tier `t`.
pub open spec fn bins_have_tier_below(bins: Seq<Json>, t: u32, n: int) -> bool {
    exists|j: int| 0 <= j < n && #[trigger] bin_names_tier(bins[j], t)
}

/// `t` is named by some `clNNNN` token of some string entry of `bins`.
pub open spec fn names_tier(bins: Seq<Json>, t: u32) -> bool {
    bins_have_tier_below(bins, t, bins.len() as int)
}

/// The `dialog.engine.model.binary.ctx-bins` array of a Genie config.
pub open spec fn ctx_bins(config: Json) -> Option<Seq<Json>> {
    match json_get(config, "dialog"@) {
        Some(d) => match json_get(d, "engine"@) {
            Some(e) => match json_get(e, "model"@) {
                Some(m) => match json_get(m, "binary"@) {
                    Some(b) => match json_get(b, "ctx-bins"@) {
                        Some(Json::Array(a)) => Some(a@),
                        _ => None,
                    },
                    None => None,
                },
                None => None,
            },
            None => None,
        },
        None => None,
    }
}

proof fn lemma_name_below_step(name: Seq<char>, t: u32, n: int)
    requires
        0 <= n,
    ensures
        name_has_tier_below(name, t, n + 1) <==> (name_has_tier_below(name, t, n) || tier_at(
            name,
            n,
        ) == Some(t)),
{
    if name_has_tier_below(name, t, n + 1) {
        let k = choose|k: int| 0 <= k < n + 1 && #[trigger] tier_at(name, k) == Some(t);
        if k < n {
            assert(0 <= k < n && tier_at(name, k) == Some(t));
        }
    }
    if name_has_tier_below(name, t, n) {
        let k = choose|k: int| 0 <= k < n && #[trigger] tier_at(name, k) == Some(t);
        assert(0 <= k < n + 1 && tier_at(name, k) == Some(t));
    }
    if tier_at(name, n) == Some(t) {
        assert(0 <= n < n + 1 && tier_at(name, n) == Some(t));
    }
}

proof fn lemma_name_below_all(name: Seq<char>, t: u32)
    ensures
        name_has_tier_below(name, t, name.len() as int) <==> name_has_tier(name, t),
{
    if name_has_tier(name, t) {
        let k = choose|k: int| #[trigger] tier_at(name, k) == Some(t);
        assert(occurs_at(name, "cl"@, k));
        reveal_strlit("cl");
        assert(0 <= k < name.len() && tier_at(name, k) == Some(t));
    }
    if name_has_tier_below(name, t, name.len() as int) {
        let k = choose|k: int| 0 <= k < name.len() && #[trigger] tier_at(name, k) == Some(t);
        assert(tier_at(name, k) == Some(t));
    }
}

proof fn lemma_bins_below_step(bins: Seq<Json>, t: u32, n: int)
    requires
        0 <= n < bins.len(),
    ensures
        bins_have_tier_below(bins, t, n + 1) <==> (bins_have_tier_below(bins, t, n)
            || bin_names_tier(bins[n], t)),
{
    if bins_have_tier_below(bins, t, n + 1) {
        let k = choose|k: int| 0 <= k < n + 1 && #[trigger] bin_names_tier(bins[k], t);
        if k < n {
            assert(0 <= k < n && bin_names_tier(bins[k], t));
        }
    }
    if bins_have_tier_below(bins, t, n) {
        let k = choose|k: int| 0 <= k < n && #[trigger] bin_names_tier(bins[k], t);
        assert(0 <= k < n + 1 && bin_names_tier(bins[k], t));
    }
    if bin_names_tier(bins[n], t) {
        assert(0 <= n < n + 1 && bin_names_tier(bins[n], t));
    }
}

/// Strictly increasing.
pub open spec fn strictly_increasing(s: Seq<u32>) -> bool {
    forall|a: int, b: int| 0 <= a < b < s.len() ==> s[a] < s[b]
}

/// The digits starting at `start` of `cs`, as a `u32` if they fit.
pub(crate) fn digits_at(cs: &[char], start: usize) -> (r: Option<u32>)
    requires
        start <= cs@.len(),
    ensures
        r == parse_u32_spec(digit_prefix(cs@.skip(start as int))),
{
    let mut j = start;
    let mut run: Vec<char> = Vec::new();
    proof {
        assert(run@ =~= cs@.subrange(start as int, start as int));
        assert(run@ + digit_prefix(cs@.skip(start as int)) =~= digit_prefix(
            cs@.skip(start as int),
        ));
    }
    while j < cs.len() && is_digit_exec(cs[j])
        invariant
            start <= j <= cs@.len(),
            run@ == cs@.subrange(start as int, j as int),
            all_digits(run@),
            digit_prefix(cs@.skip(start as int)) == run@ + digit_prefix(cs@.skip(j as int)),
        decreases cs@.len() - j,
    {
        proof {
            assert(cs@.skip(j as int).skip(1) =~= cs@.skip(j + 1));
            assert(cs@.skip(j as int)[0] == cs@[j as int]);
            assert(run@.push(cs@[j as int]) =~= cs@.subrange(start as int, j + 1));
            assert(run@ + (seq![cs@[j as int]] + digit_prefix(cs@.skip(j + 1))) =~= run@.push(
                cs@[j as int],
            ) + digit_prefix(cs@.skip(j + 1)));
        }
        run.push(cs[j]);
        j = j + 1;
    }
    proof {
        if j < cs@.len() {
            assert(cs@.skip(j as int)[0] == cs@[j as int]);
        }
        assert(digit_prefix(cs@.skip(j as int)) =~= Seq::<char>::empty());
        assert(run@ + Seq::<char>::empty() =~= run@);
    }
    parse_u32(&run)
}

/// Insert `t` into a strictly increasing vector unless present.
fn insert_sorted(v: &mut Vec<u32>, t: u32)
    requires
        strictly_increasing(old(v)@),
    ensures
        strictly_increasing(final(v)@),
        forall|x: u32| #[trigger] final(v)@.contains(x) <==> (old(v)@.contains(x) || x == t),
{
    let mut i: usize = 0;
    while i < v.len() && v[i] < t
        invariant
            i <= v@.len(),
            strictly_increasing(v@),
            forall|a: int| 0 <= a < i ==> v@[a] < t,
        decreases v@.len() - i,
    {
        i = i + 1;
    }
    if i < v.len() && v[i] == t {
        proof {
            assert(v@[i as int] == t);
            assert(v@.contains(t));
        }
        return;
    }
    let ghost old_v = v@;
    v.insert(i, t);
    proof {
        assert(v@ =~= old_v.insert(i as int, t));
        assert forall|x: u32| #[trigger] v@.contains(x) <==> (old_v.contains(x) || x == t) by {
            if v@.contains(x) {
                let k = choose|k: int| 0 <= k < v@.len() && v@[k] == x;
                if k < i {
                    assert(old_v[k] == x);
                } else if k > i {
                    assert(old_v[k - 1] == x);
                }
            }
            if old_v.contains(x) {
                let k = choose|k: int| 0 <= k < old_v.len() && old_v[k] == x;
                if k < i {
                    assert(v@[k] == x);
                } else {
                    assert(v@[k + 1] == x);
                }
            }
            if x == t {
                assert(v@[i as int] == t);
                assert(v@.contains(t));
            }
        }
        assert forall|a: int, b: int| 0 <= a < b < v@.len() implies v@[a] < v@[b] by {
            if b < i {
                assert(v@[a] == old_v[a] && v@[b] == old_v[b]);
            } else if b == i {
                assert(v@[a] == old_v[a]);
            } else if a < i {
                assert(v@[a] == old_v[a] && v@[b] == old_v[b - 1]);
                assert(old_v[a] < t);
                if i < old_v.len() {
                    assert(old_v[i as int] >= t);
                }
            } else if a == i {
                assert(v@[b] == old_v[b - 1]);
                assert(old_v[i as int] >= t);
                assert(old_v[i as int] != t);
            } else {
                assert(v@[a] == old_v[a - 1] && v@[b] == old_v[b - 1]);
            }
        }
    }
}

/// Add the tiers named in one shard file name.
fn add_name_tiers(tiers: &mut Vec<u32>, cs: &Vec<char>)
    requires
        strictly_increasing(old(tiers)@),
    ensures
        strictly_increasing(final(tiers)@),
        forall|x: u32|
            #[trigger] final(tiers)@.contains(x) <==> (old(tiers)@.contains(x) || name_has_tier(
                cs@,
                x,
            )),
{
    let ghost start = tiers@;
    let pat = to_chars("cl");
    proof {
        reveal_strlit("cl");
    }
    let mut i: usize = 0;
    while i < cs.len()
        invariant
            pat@ == "cl"@,
            pat@.len() == 2,
            i <= cs@.len(),
            strictly_increasing(tiers@),
            forall|x: u32|
                #[trigger] tiers@.contains(x) <==> (start.contains(x) || name_has_tier_below(
                    cs@,
                    x,
                    i as int,
                )),
        decreases cs@.len() - i,
    {
        let ghost mid = tiers@;
        let mut found: Option<u32> = None;
        if occurs_at_exec(cs, &pat, i) {
            found = digits_at(cs, i + 2);
        }
        proof {
            assert(found == tier_at(cs@, i as int));
        }
        match found {
            Some(t) => {
                insert_sorted(tiers, t);
            },
            None => {},
        }
        proof {
            assert forall|x: u32|
                #[trigger] tiers@.contains(x) <==> (start.contains(x) || name_has_tier_below(
                    cs@,
                    x,
                    i + 1,
                )) by {
                lemma_name_below_step(cs@, x, i as int);
                assert(mid.contains(x) <==> (start.contains(x) || name_has_tier_below(
                    cs@,
                    x,
                    i as int,
                )));
            }
        }
        i = i + 1;
    }
    proof {
        assert forall|x: u32|
            #[trigger] tiers@.contains(x) <==> (start.contains(x) || name_has_tier(cs@, x)) by {
            lemma_name_below_all(cs@, x);
        }
    }
}

/// Tier `t` is compiled into the bundle whose Genie config is `config`.
pub open spec fn tier_in_config(config: Json, t: u32) -> bool {
    match ctx_bins(config) {
        Some(b) => names_tier(b, t),
        None => false,
    }
}

/// The `ctx-bins` array of a parsed Genie config, if it has one.
pub fn ctx_bins_of(config: &Json) -> (r: Option<&Vec<Json>>)
    ensures
        match r {
            Some(a) => ctx_bins(*config) == Some(a@),
            None => ctx_bins(*config) is None,
        },
{
    let d = match json_member(config, "dialog") {
        Some(d) => d,
        None => return None,
    };
    let e = match json_member(d, "engine") {
        Some(e) => e,
        None => return None,
    };
    let m = match json_member(e, "model") {
        Some(m) => m,
        None => return None,
    };
    let b = match json_member(m, "binary") {
        Some(b) => b,
        None => return None,
    };
    match json_member(b, "ctx-bins") {
        Some(Json::Array(a)) => Some(a),
        _ => None,
    }
}

/// Context tiers compiled into a Genie bundle, from its parsed
/// `genie_config.json`: every `clNNNN` token of every string entry of
/// `dialog.engine.model.binary.ctx-bins`, deduplicated, ascending; none
/// when that array is missing.
pub fn available_ctx_tiers(config: &Json) -> (r: Vec<u32>)
    ensures
        strictly_increasing(r@),
        match ctx_bins(*config) {
            None => r@.len() == 0,
            Some(b) => forall|t: u32| #[trigger] r@.contains(t) <==> names_tier(b, t),
        },
{
    let mut tiers: Vec<u32> = Vec::new();
    let b = match ctx_bins_of(config) {
        None => return tiers,
        Some(b) => b,
    };
    let mut j: usize = 0;
    while j < b.len()
        invariant
            j <= b@.len(),
            strictly_increasing(tiers@),
            forall|t: u32| #[trigger] tiers@.contains(t) <==> bins_have_tier_below(b@, t, j as int),
        decreases b@.len() - j,
    {
        let ghost mid = tiers@;
        match &b[j] {
            Json::Str(name) => {
                let cs = to_chars(name.as_str());
                add_name_tiers(&mut tiers, &cs);
            },
            _ => {},
        }
        proof {
            assert forall|t: u32|
                #[trigger] tiers@.contains(t) <==> bins_have_tier_below(b@, t, j + 1) by {
                lemma_bins_below_step(b@, t, j as int);
                assert(mid.contains(t) <==> bins_have_tier_below(b@, t, j as int));
            }
        }
        j = j + 1;
    }
    tiers
}

// ---------------------------------------------------------------------
// Tier listing and context overrides
// ---------------------------------------------------------------------

/// The tiers in decimal, separated by `, `.
pub open spec fn join_decimal(ts: Seq<u32>) -> Seq<char>
    decreases ts.len(),
{
    if ts.len() == 0 {
        Seq::empty()
    } else if ts.len() == 1 {
        decimal(ts[0] as nat)
    } else {
        join_decimal(ts.drop_last()) + ", "@ + decimal(ts.last() as nat)
    }
}

/// How a tier list reads in an error message.
pub open spec fn format_tiers_spec(ts: Seq<u32>) -> Seq<char> {
    if ts.len() == 0 {
        "(none \u{2014} could not parse ctx-bins filenames)"@
    } else {
        join_decimal(ts)
    }
}

/// A tier list for an error message.
pub fn format_tiers(tiers: &[u32]) -> (r: String)
    ensures
        r@ == format_tiers_spec(tiers@),
{
    if tiers.len() == 0 {
        return owned("(none \u{2014} could not parse ctx-bins filenames)");
    }
    let mut out = fmt_u64(tiers[0] as u64);
    let mut i: usize = 1;
    proof {
        assert(tiers@.take(1).drop_last().len() == 0);
        assert(tiers@.take(1)[0] == tiers@[0]);
    }
    while i < tiers.len()
        invariant
            1 <= i <= tiers@.len(),
            out@ == join_decimal(tiers@.take(i as int)),
        decreases tiers@.len() - i,
    {
        proof {
            assert(tiers@.take(i + 1).drop_last() =~= tiers@.take(i as int));
            assert(tiers@.take(i + 1).last() == tiers@[i as int]);
        }
        out.append(", ");
        let d = fmt_u64(tiers[i] as u64);
        out.append(d.as_str());
        i = i + 1;
    }
    proof {
        assert(tiers@.take(tiers@.len() as int) =~= tiers@);
    }
    out
}

/// Refuse a requested context tier the bundle was not compiled with.
pub fn check_ctx_override(requested: u32, available: Vec<u32>) -> (r: Result<(), EngineError>)
    ensures
        available@.contains(requested) ==> r is Ok,
        !available@.contains(requested) ==> (r matches Err(
            EngineError::ContextTierUnavailable { requested: q, available: a },
        ) && q == requested && a@ == available@),
{
    let mut i: usize = 0;
    while i < available.len()
        invariant
            i <= available@.len(),
            forall|k: int| 0 <= k < i ==> available@[k] != requested,
        decreases available@.len() - i,
    {
        if available[i] == requested {
            proof {
                assert(available@[i as int] == requested);
            }
            return Ok(());
        }
        i = i + 1;
    }
    Err(EngineError::ContextTierUnavailable { requested, available })
}

/// The bundle-relative `genie_config.json` a manifest names, or
/// `NotAGenieBundle` naming the manifest's path.
pub fn genie_config_of(manifest: &Manifest, manifest_path: &str) -> (r: Result<String, EngineError>)
    ensures
        match manifest.files.genie_config {
            Some(g) => r matches Ok(s) && s@ == g@,
            None => r matches Err(EngineError::NotAGenieBundle { path }) && path@
                == manifest_path@,
        },
{
    match &manifest.files.genie_config {
        Some(g) => Ok(owned(g.as_str())),
        None => Err(EngineError::NotAGenieBundle { path: owned(manifest_path) }),
    }
}

// ---------------------------------------------------------------------
// What reaches the dialog
// ---------------------------------------------------------------------

/// A one-shot prompt as the dialog receives it: wrapped through the chat
/// template when the manifest has one, else unchanged.
pub fn prompt_for(template: &Option<ChatTemplate>, prompt: &str) -> (r: String)
    ensures
        match template {
            Some(t) => r@ == fill(t.template@, t.system_prompt@, prompt@),
            None => r@ == prompt@,
        },
{
    match template {
        Some(t) => t.wrap(prompt),
        None => owned(prompt),
    }
}

/// The transcript a multi-turn chat sends: `NoChatTemplate` without a
/// template, `NoUserMessage` without a user turn.
pub fn chat_transcript(manifest: &Manifest, messages: &[ChatMessage]) -> (r: Result<
    String,
    EngineError,
>)
    ensures
        match manifest.chat_template {
            None => r matches Err(EngineError::NoChatTemplate { name }) && name@
                == manifest.name@,
            Some(t) => match wrap_chat_spec(t, messages@) {
                None => r matches Err(EngineError::NoUserMessage),
                Some(s) => r matches Ok(x) && x@ == s,
            },
        },
{
    let t = match &manifest.chat_template {
        Some(t) => t,
        None => return Err(EngineError::NoChatTemplate { name: owned(manifest.name.as_str()) }),
    };
    match t.wrap_chat(messages) {
        Some(s) => Ok(s),
        None => Err(EngineError::NoUserMessage),
    }
}

/// The sentence code of the next chat query, and whether the dialog's
/// cache is primed afterwards: the first query after a load or reset is
/// `Complete`, later ones `Rewind`.
pub fn next_chat_code(chat_started: bool) -> (r: (SentenceCode, bool))
    ensures
        r.0 == (if chat_started {
            SentenceCode::Rewind
        } else {
            SentenceCode::Complete
        }),
        r.1,
{
    if chat_started {
        (SentenceCode::Rewind, true)
    } else {
        (SentenceCode::Complete, true)
    }
}

/// What a load decides once the manifest is read, on a build without the
/// Genie runtime: every backend is unavailable.
pub fn load_without_runtime(config: &EngineConfig) -> (r: EngineError)
    ensures
        r matches EngineError::FeatureDisabled(b) && b == config.backend,
{
    EngineError::FeatureDisabled(config.backend)
}

// ---------------------------------------------------------------------
// Pinning the context tier
// ---------------------------------------------------------------------

/// `new` is `old` with the value at member path `path` replaced by
/// `value`; every other member, and the order of members, unchanged.
pub open spec fn replaced_at(old: Json, new: Json, path: Seq<Seq<char>>, value: Json) -> bool
    decreases path.len(),
{
    if path.len() == 0 {
        new == value
    } else {
        match (old, new) {
            (Json::Object(oe), Json::Object(ne)) => match member_index(oe@, path[0]) {
                Some(i) => {
                    &&& ne@.len() == oe@.len()
                    &&& forall|j: int| 0 <= j < oe@.len() && j != i ==> ne@[j] == oe@[j]
                    &&& ne@[i].0 == oe@[i].0
                    &&& replaced_at(oe@[i].1, ne@[i].1, path.skip(1), value)
                },
                None => false,
            },
            _ => false,
        }
    }
}

/// `dialog.context.size`.
pub open spec fn context_size_path() -> Seq<Seq<char>> {
    seq!["dialog"@, "context"@, "size"@]
}

/// Replace member `key` of `v` by what `f` makes of it: one level of
/// `replaced_at`.
proof fn lemma_replaced_one(
    v: Json,
    key: Seq<char>,
    rest: Seq<(String, Json)>,
    i: int,
    k: String,
    child: Json,
    new_child: Json,
    new: Json,
    path: Seq<Seq<char>>,
    value: Json,
)
    requires
        path.len() > 0,
        path[0] == key,
        v matches Json::Object(es) && member_index(es@, key) == Some(i) && rest == es@.remove(i)
            && (k, child) == es@[i],
        new matches Json::Object(ne) && ne@ == rest.insert(i, (k, new_child)),
        replaced_at(child, new_child, path.skip(1), value),
    ensures
        replaced_at(v, new, path, value),
{
    if let Json::Object(es) = v {
        crate::json::lemma_member_index(es@, key);
    }
}

/// Set `dialog.context.size` of a parsed Genie config to `requested`,
/// after checking that the bundle was compiled with that tier; the
/// patched config as JSON text. `genie_path` names the file in errors.
pub fn pin_context_tier(config: Json, requested: u32, genie_path: &str) -> (r: Result<
    String,
    EngineError,
>)
    ensures
        !tier_in_config(config, requested) ==> (r matches Err(
            EngineError::ContextTierUnavailable { requested: q, available: a },
        ) && q == requested && strictly_increasing(a@) && forall|t: u32| #[trigger]
            a@.contains(t) <==> tier_in_config(config, t)),
        tier_in_config(config, requested) && json_path(config, context_size_path())
            is None ==> (r matches Err(EngineError::GenieConfigRead { path, message }) && path@
            == genie_path@ && message@ == "missing dialog.context.size; cannot apply --ctx override"@),
        tier_in_config(config, requested) && json_path(config, context_size_path())
            is Some ==> (r matches Ok(text) && exists|patched: Json|
            #[trigger] replaced_at(config, patched, context_size_path(), Json::Number(
                JsonNumber::Unsigned(requested as u64),
            )) && text@ == json_text(patched)),
{
    let available = available_ctx_tiers(&config);
    let mut found = false;
    let mut i: usize = 0;
    while i < available.len()
        invariant
            i <= available@.len(),
            found <==> exists|k: int| 0 <= k < i && available@[k] == requested,
        decreases available@.len() - i,
    {
        if available[i] == requested {
            found = true;
        }
        i = i + 1;
    }
    if !found {
        proof {
            if available@.contains(requested) {
                let k = choose|k: int| 0 <= k < available@.len() && available@[k] == requested;
                assert(available@[k] == requested);
            }
        }
        return Err(EngineError::ContextTierUnavailable { requested, available });
    }
    proof {
        let k = choose|k: int| 0 <= k < available@.len() && available@[k] == requested;
        assert(available@.contains(requested));
    }
    let ghost path = context_size_path();
    let ghost orig = config;
    let missing = EngineError::GenieConfigRead {
        path: owned(genie_path),
        message: owned("missing dialog.context.size; cannot apply --ctx override"),
    };
    proof {
        reveal_strlit("dialog");
        reveal_strlit("context");
        reveal_strlit("size");
        assert(path[0] == "dialog"@ && path[1] == "context"@ && path[2] == "size"@);
        assert(path.skip(1)[0] == "context"@ && path.skip(1).skip(1)[0] == "size"@);
        assert(path.skip(1).skip(1).skip(1).len() == 0);
    }
    let (rest1, i1, k1, dialog) = match split_member(config, "dialog") {
        Some(x) => x,
        None => {
            proof {
                if let Json::Object(es) = orig {
                    crate::json::lemma_member_index(es@, "dialog"@);
                }
            }
            return Err(missing);
        },
    };
    let ghost dialog_v = dialog;
    let (rest2, i2, k2, context) = match split_member(dialog, "context") {
        Some(x) => x,
        None => {
            proof {
                if let Json::Object(es) = orig {
                    crate::json::lemma_member_index(es@, "dialog"@);
                }
                if let Json::Object(es) = dialog_v {
                    crate::json::lemma_member_index(es@, "context"@);
                }
                reveal_with_fuel(json_path, 4);
            }
            return Err(missing);
        },
    };
    let ghost context_v = context;
    let (rest3, i3, k3, _size) = match split_member(context, "size") {
        Some(x) => x,
        None => {
            proof {
                if let Json::Object(es) = orig {
                    crate::json::lemma_member_index(es@, "dialog"@);
                }
                if let Json::Object(es) = dialog_v {
                    crate::json::lemma_member_index(es@, "context"@);
                }
                if let Json::Object(es) = context_v {
                    crate::json::lemma_member_index(es@, "size"@);
                }
                reveal_with_fuel(json_path, 4);
            }
            return Err(missing);
        },
    };
    proof {
        if let Json::Object(es) = orig {
            crate::json::lemma_member_index(es@, "dialog"@);
        }
        if let Json::Object(es) = dialog_v {
            crate::json::lemma_member_index(es@, "context"@);
        }
        if let Json::Object(es) = context_v {
            crate::json::lemma_member_index(es@, "size"@);
        }
        reveal_with_fuel(json_path, 4);
        assert(json_path(orig, path) is Some);
    }
    let value = Json::Number(JsonNumber::Unsigned(requested as u64));
    let ghost value_v = value;
    let new_context = put_member(rest3, i3, k3, value);
    proof {
        lemma_replaced_one(
            context_v,
            "size"@,
            rest3@,
            i3 as int,
            k3,
            _size,
            value_v,
            new_context,
            path.skip(1).skip(1),
            value_v,
        );
    }
    let ghost nc = new_context;
    let new_dialog = put_member(rest2, i2, k2, new_context);
    proof {
        lemma_replaced_one(
            dialog_v,
            "context"@,
            rest2@,
            i2 as int,
            k2,
            context_v,
            nc,
            new_dialog,
            path.skip(1),
            value_v,
        );
    }
    let ghost nd = new_dialog;
    let patched = put_member(rest1, i1, k1, new_dialog);
    proof {
        lemma_replaced_one(
            orig,
            "dialog"@,
            rest1@,
            i1 as int,
            k1,
            dialog_v,
            nd,
            patched,
            path,
            value_v,
        );
    }
    let text = json_to_string(&patched);
    Ok(text)
}

} // verus!
