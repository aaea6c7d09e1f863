//! `hexrun.json` model manifest format.

use vstd::prelude::*;
use crate::digest_map::Sha256Map;
use crate::npurun::manifest::{
    find_bad_digest, first_bad_digest, lemma_no_bad_digest, optional_path_error,
};
use crate::npurun::engine::{digit_prefix, digits_at};
use crate::rules::{
    check_safe_relpath, debug_quoted, is_sha256_hex_spec, quote_debug, relpath_error, split_at_char, split_char,
    version_core, version_core_exec,
};
use crate::text::{owned, parse_u32, parse_u32_spec, to_chars};

verus! {

/// Quantization schemes hexrun understands.
#[derive(Clone, Copy, Debug, PartialEq, Eq, Structural)]
pub enum Quant {
    /// Per-tensor INT8 weights and activations.
    Int8,
    /// Per-channel INT8 weights with INT16 activations.
    Int8WInt16A,
    /// 4-bit group-quantized weights.
    Int4,
    /// FP16.
    Fp16,
}

/// Files referenced by a hexrun manifest.
#[derive(Clone, Debug)]
pub struct ManifestFiles {
    /// ONNX model file.
    pub model: String,
    /// QNN context binary.
    pub ctx: Option<String>,
    /// `tokenizer.json`.
    pub tokenizer: String,
    /// Architecture/runtime config file.
    pub config: Option<String>,
}

/// A `hexrun.json` manifest.
pub struct Manifest {
    /// Registry name.
    pub name: String,
    /// Manifest version.
    pub version: String,
    /// Model architecture identifier.
    pub arch: String,
    /// Tokenizer vocabulary size.
    pub vocab: u32,
    /// Maximum context length.
    pub context: u32,
    /// Quantization scheme.
    pub quant: Quant,
    /// QNN SDK version the context binary was compiled against.
    pub qnn_sdk: String,
    /// Files of the bundle.
    pub files: ManifestFiles,
    /// sha256 digest of each file, keyed by field name.
    pub sha256: Sha256Map,
}

/// Errors raised while reading or validating a hexrun manifest.
#[derive(Debug)]
pub enum ManifestError {
    /// Reading the manifest file failed.
    Io {
        /// Path of the manifest file.
        path: String,
        /// What the I/O error said.
        message: String,
    },
    /// The manifest is not valid JSON or does not match the schema.
    Parse {
        /// Path of the manifest file.
        path: String,
        /// What the JSON error said.
        message: String,
    },
    /// A field failed semantic validation.
    Invalid(String),
    /// The runtime QNN SDK differs from the manifest's by major version.
    SdkMajorMismatch {
        /// The version recorded in the manifest.
        manifest: String,
        /// The live runtime version.
        runtime: String,
    },
}

/// A hexrun SDK version: `MAJOR.MINOR.PATCH`, cut at the first `-` or
/// `+`, in exactly three `.`-separated parts; major and minor are `u32`,
/// the patch is the leading run of digits of the third part (so text
/// such as `rc1` may follow it), which must be non-empty and fit a `u32`.
pub open spec fn semver_spec(s: Seq<char>) -> Option<(u32, u32, u32)> {
    let parts = split_char(version_core(s), '.');
    if parts.len() == 3 && parse_u32_spec(parts[0]) is Some && parse_u32_spec(parts[1]) is Some
        && parse_u32_spec(digit_prefix(parts[2])) is Some {
        Some(
            (
                parse_u32_spec(parts[0]).unwrap(),
                parse_u32_spec(parts[1]).unwrap(),
                parse_u32_spec(digit_prefix(parts[2])).unwrap(),
            ),
        )
    } else {
        None
    }
}

/// Parse a hexrun SDK version (see `semver_spec`).
pub fn parse_semver(s: &str) -> (r: Option<(u32, u32, u32)>)
    ensures
        r == semver_spec(s@),
{
    let chars = to_chars(s);
    let core = version_core_exec(&chars);
    let parts = split_at_char(&core, '.');
    proof {
        assert(parts@.map_values(|v: Vec<char>| v@).len() == parts@.len());
    }
    if parts.len() != 3 {
        return None;
    }
    proof {
        assert(parts@[0]@ == split_char(version_core(s@), '.')[0]);
        assert(parts@[1]@ == split_char(version_core(s@), '.')[1]);
        assert(parts@[2]@ == split_char(version_core(s@), '.')[2]);
        assert(parts@[2]@.skip(0) =~= parts@[2]@);
    }
    let major = match parse_u32(&parts[0]) {
        Some(v) => v,
        None => return None,
    };
    let minor = match parse_u32(&parts[1]) {
        Some(v) => v,
        None => return None,
    };
    let patch = match digits_at(&parts[2], 0) {
        Some(v) => v,
        None => return None,
    };
    Some((major, minor, patch))
}

/// `s` is a hexrun SDK version (see `semver_spec`).
pub fn is_semverish(s: &str) -> (r: bool)
    ensures
        r == semver_spec(s@) is Some,
{
    parse_semver(s).is_some()
}

/// The message of the first rule a hexrun manifest breaks, if any.
pub open spec fn validation_error(m: Manifest) -> Option<Seq<char>> {
    if m.name@.len() == 0 {
        Some("name is empty"@)
    } else if m.version@.len() == 0 {
        Some("version is empty"@)
    } else if m.vocab == 0 {
        Some("vocab is 0"@)
    } else if m.context == 0 {
        Some("context is 0"@)
    } else if !(semver_spec(m.qnn_sdk@) is Some) {
        Some("qnn_sdk "@ + debug_quoted(m.qnn_sdk@) + " is not in MAJOR.MINOR.PATCH form"@)
    } else if relpath_error("files.model"@, m.files.model@) is Some {
        relpath_error("files.model"@, m.files.model@)
    } else if relpath_error("files.tokenizer"@, m.files.tokenizer@) is Some {
        relpath_error("files.tokenizer"@, m.files.tokenizer@)
    } else if optional_path_error("files.ctx"@, m.files.ctx) is Some {
        optional_path_error("files.ctx"@, m.files.ctx)
    } else if optional_path_error("files.config"@, m.files.config) is Some {
        optional_path_error("files.config"@, m.files.config)
    } else if first_bad_digest(m.sha256@) is Some {
        Some("sha256["@ + first_bad_digest(m.sha256@).unwrap() + "] is not 64 lowercase hex chars"@)
    } else {
        None
    }
}

/// A hexrun manifest that passes validation has a name and a version, a
/// non-zero vocabulary and context, an SDK version hexrun can read, safe
/// model and tokenizer paths, and only well-formed digests.
pub proof fn lemma_valid_manifest_fields(m: Manifest)
    requires
        validation_error(m) is None,
    ensures
        m.name@.len() > 0,
        m.version@.len() > 0,
        m.vocab != 0,
        m.context != 0,
        semver_spec(m.qnn_sdk@) is Some,
        relpath_error("files.model"@, m.files.model@) is None,
        relpath_error("files.tokenizer"@, m.files.tokenizer@) is None,
        forall|i: int| 0 <= i < m.sha256@.len() ==> is_sha256_hex_spec(#[trigger] m.sha256@[i].1),
{
    lemma_no_bad_digest(m.sha256@);
}

fn check_path(field: &str, p: &str) -> (r: Result<(), ManifestError>)
    ensures
        match relpath_error(field@, p@) {
            None => r is Ok,
            Some(m) => r matches Err(ManifestError::Invalid(e)) && e@ == m,
        },
{
    match check_safe_relpath(field, p) {
        Ok(()) => Ok(()),
        Err(m) => Err(ManifestError::Invalid(m)),
    }
}

fn check_optional(field: &str, p: &Option<String>) -> (r: Result<(), ManifestError>)
    ensures
        match optional_path_error(field@, *p) {
            None => r is Ok,
            Some(m) => r matches Err(ManifestError::Invalid(e)) && e@ == m,
        },
{
    match p {
        Some(s) => check_path(field, s.as_str()),
        None => Ok(()),
    }
}

impl Manifest {
    /// Validate field invariants; `Err(Invalid(message))` names the first
    /// rule broken.
    pub fn validate(&self) -> (r: Result<(), ManifestError>)
        ensures
            match validation_error(*self) {
                None => r is Ok,
                Some(m) => r matches Err(ManifestError::Invalid(e)) && e@ == m,
            },
    {
        if self.name.as_str().is_empty() {
            return Err(ManifestError::Invalid(owned("name is empty")));
        }
        if self.version.as_str().is_empty() {
            return Err(ManifestError::Invalid(owned("version is empty")));
        }
        if self.vocab == 0 {
            return Err(ManifestError::Invalid(owned("vocab is 0")));
        }
        if self.context == 0 {
            return Err(ManifestError::Invalid(owned("context is 0")));
        }
        if !is_semverish(self.qnn_sdk.as_str()) {
            let mut m = owned("qnn_sdk ");
            let q = quote_debug(self.qnn_sdk.as_str());
            m.append(q.as_str());
            m.append(" is not in MAJOR.MINOR.PATCH form");
            return Err(ManifestError::Invalid(m));
        }
        check_path("files.model", self.files.model.as_str())?;
        check_path("files.tokenizer", self.files.tokenizer.as_str())?;
        check_optional("files.ctx", &self.files.ctx)?;
        check_optional("files.config", &self.files.config)?;
        match find_bad_digest(&self.sha256) {
            Some(k) => {
                let mut m = owned("sha256[");
                m.append(k.as_str());
                m.append("] is not 64 lowercase hex chars");
                return Err(ManifestError::Invalid(m));
            },
            None => {},
        }
        Ok(())
    }

    /// Compare `qnn_sdk` against the runtime's version: a differing major
    /// is refused, minor and patch drift pass; an unparseable runtime
    /// version skips the check.
    pub fn check_sdk_compat(&self, runtime_sdk: &str) -> (r: Result<(), ManifestError>)
        ensures
            match semver_spec(self.qnn_sdk@) {
                None => r matches Err(ManifestError::Invalid(e)) && e@ == "qnn_sdk "@
                    + debug_quoted(self.qnn_sdk@) + " unparseable"@,
                Some(mv) => match semver_spec(runtime_sdk@) {
                    None => r is Ok,
                    Some(rv) => if mv.0 != rv.0 {
                        r matches Err(ManifestError::SdkMajorMismatch { manifest, runtime })
                            && manifest@ == self.qnn_sdk@ && runtime@ == runtime_sdk@
                    } else {
                        r is Ok
                    },
                },
            },
    {
        let m = match parse_semver(self.qnn_sdk.as_str()) {
            Some(v) => v,
            None => {
                let mut msg = owned("qnn_sdk ");
                let q = quote_debug(self.qnn_sdk.as_str());
                msg.append(q.as_str());
                msg.append(" unparseable");
                return Err(ManifestError::Invalid(msg));
            },
        };
        let r = match parse_semver(runtime_sdk) {
            Some(v) => v,
            None => return Ok(()),
        };
        if m.0 != r.0 {
            return Err(
                ManifestError::SdkMajorMismatch {
                    manifest: owned(self.qnn_sdk.as_str()),
                    runtime: owned(runtime_sdk),
                },
            );
        }
        Ok(())
    }

    /// Whether the runtime's SDK shares this manifest's major version but
    /// not its minor one: `check_sdk_compat` passes, and the context
    /// binary may need recompiling (worth a warning).
    pub fn sdk_minor_drift(&self, runtime_sdk: &str) -> (r: bool)
        ensures
            r == match (semver_spec(self.qnn_sdk@), semver_spec(runtime_sdk@)) {
                (Some(mv), Some(rv)) => mv.0 == rv.0 && mv.1 != rv.1,
                _ => false,
            },
    {
        match (parse_semver(self.qnn_sdk.as_str()), parse_semver(runtime_sdk)) {
            (Some(m), Some(r)) => m.0 == r.0 && m.1 != r.1,
            _ => false,
        }
    }
}

} // verus!
