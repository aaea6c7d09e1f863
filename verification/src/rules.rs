//! Field rules shared by the `hexrun.json` and `npurun.json` manifests:
//! SDK version strings, sha256 digests and bundle-relative paths.

use vstd::prelude::*;
use crate::text::{owned, parse_u32, parse_u32_spec, to_chars};

verus! {

// ---------------------------------------------------------------------
// Debug quoting
// ---------------------------------------------------------------------

/// What `format!("{:?}", s)` writes for a string slice: `s` in double
/// quotes with `str::escape_debug` applied.
pub uninterp spec fn debug_quoted(s: Seq<char>) -> Seq<char>;

/// `<str as Debug>::fmt`, through `format!`.
#[verifier::external_body]
pub(crate) fn quote_debug(s: &str) -> (r: String)
    ensures
        r@ == debug_quoted(s@),
{
    format!("{:?}", s)
}

// ---------------------------------------------------------------------
// Splitting
// ---------------------------------------------------------------------

/// `s.split(sep)` as a sequence of pieces (always at least one piece).
pub open spec fn split_char(s: Seq<char>, sep: char) -> Seq<Seq<char>>
    decreases s.len(),
{
    if s.len() == 0 {
        seq![Seq::empty()]
    } else {
        let p = split_char(s.drop_last(), sep);
        if s.last() == sep {
            p.push(Seq::empty())
        } else {
            p.update(p.len() - 1, p.last().push(s.last()))
        }
    }
}

/// The prefix of `s` before its first `-` or `+` (the part of a version
/// string before any pre-release or build suffix).
pub open spec fn version_core(s: Seq<char>) -> Seq<char>
    decreases s.len(),
{
    if s.len() == 0 {
        s
    } else {
        let c = version_core(s.drop_last());
        if c.len() < s.len() - 1 || s.last() == '-' || s.last() == '+' {
            c
        } else {
            s
        }
    }
}

/// `MAJOR.MINOR.PATCH`, optionally followed by a `-pre` or `+build`
/// suffix; each number a `u32`.
pub open spec fn parse_semver_spec(s: Seq<char>) -> Option<(u32, u32, u32)> {
    let parts = split_char(version_core(s), '.');
    if parts.len() == 3 && parse_u32_spec(parts[0]) is Some && parse_u32_spec(parts[1]) is Some
        && parse_u32_spec(parts[2]) is Some {
        Some(
            (
                parse_u32_spec(parts[0]).unwrap(),
                parse_u32_spec(parts[1]).unwrap(),
                parse_u32_spec(parts[2]).unwrap(),
            ),
        )
    } else {
        None
    }
}

/// A split always has at least one piece.
pub proof fn lemma_split_nonempty(s: Seq<char>, sep: char)
    ensures
        split_char(s, sep).len() >= 1,
    decreases s.len(),
{
    if s.len() > 0 {
        lemma_split_nonempty(s.drop_last(), sep);
    }
}

/// The pieces of `s` split at `sep`.
pub fn split_at_char(s: &[char], sep: char) -> (r: Vec<Vec<char>>)
    ensures
        r@.map_values(|v: Vec<char>| v@) == split_char(s@, sep),
{
    let mut parts: Vec<Vec<char>> = Vec::new();
    let mut cur: Vec<char> = Vec::new();
    let mut i: usize = 0;
    proof {
        assert(s@.take(0) =~= Seq::<char>::empty());
        assert(parts@.map_values(|v: Vec<char>| v@).push(cur@) =~= seq![Seq::<char>::empty()]);
    }
    while i < s.len()
        invariant
            i <= s@.len(),
            split_char(s@.take(i as int), sep) == parts@.map_values(|v: Vec<char>| v@).push(
                cur@,
            ),
        decreases s@.len() - i,
    {
        let c = s[i];
        proof {
            assert(s@.take(i + 1).drop_last() =~= s@.take(i as int));
            assert(s@.take(i + 1).last() == c);
        }
        if c == sep {
            let done = cur;
            parts.push(done);
            cur = Vec::new();
            proof {
                assert(parts@.map_values(|v: Vec<char>| v@).push(cur@) =~= split_char(
                    s@.take(i as int),
                    sep,
                ).push(Seq::empty()));
            }
        } else {
            cur.push(c);
            proof {
                let p = split_char(s@.take(i as int), sep);
                assert(parts@.map_values(|v: Vec<char>| v@).push(cur@) =~= p.update(
                    p.len() - 1,
                    p.last().push(c),
                ));
            }
        }
        i = i + 1;
    }
    proof {
        assert(s@.take(s@.len() as int) =~= s@);
    }
    parts.push(cur);
    proof {
        assert(parts@.map_values(|v: Vec<char>| v@) =~= split_char(s@, sep));
    }
    parts
}

/// The characters of `s` before its first `-` or `+`.
pub fn version_core_exec(s: &[char]) -> (r: Vec<char>)
    ensures
        r@ == version_core(s@),
{
    let mut out: Vec<char> = Vec::new();
    let mut i: usize = 0;
    let mut stopped = false;
    while i < s.len()
        invariant
            i <= s@.len(),
            out@ == version_core(s@.take(i as int)),
            stopped <==> out@.len() < i,
        decreases s@.len() - i,
    {
        let c = s[i];
        proof {
            assert(s@.take(i + 1).drop_last() =~= s@.take(i as int));
            assert(s@.take(i + 1).last() == c);
            lemma_version_core_len(s@.take(i as int));
        }
        if !stopped {
            if c == '-' || c == '+' {
                stopped = true;
            } else {
                out.push(c);
                proof {
                    assert(out@ =~= s@.take(i + 1));
                }
            }
        }
        i = i + 1;
    }
    proof {
        assert(s@.take(s@.len() as int) =~= s@);
    }
    out
}

/// The version core is never longer than the string; when it is as long,
/// it is the string.
pub proof fn lemma_version_core_len(s: Seq<char>)
    ensures
        version_core(s).len() <= s.len(),
        version_core(s).len() == s.len() ==> version_core(s) == s,
    decreases s.len(),
{
    if s.len() > 0 {
        lemma_version_core_len(s.drop_last());
    }
}

/// Parse `MAJOR.MINOR.PATCH[-pre][+build]`.
pub fn parse_semver(s: &str) -> (r: Option<(u32, u32, u32)>)
    ensures
        r == parse_semver_spec(s@),
{
    let chars = to_chars(s);
    let core = version_core_exec(&chars);
    let parts = split_at_char(&core, '.');
    proof {
        assert(parts@.map_values(|v: Vec<char>| v@).len() == parts@.len());
    }
    if parts.len() != 3 {
        return None;
    }
    proof {
        assert(parts@[0]@ == split_char(version_core(s@), '.')[0]);
        assert(parts@[1]@ == split_char(version_core(s@), '.')[1]);
        assert(parts@[2]@ == split_char(version_core(s@), '.')[2]);
    }
    let major = match parse_u32(&parts[0]) {
        Some(v) => v,
        None => return None,
    };
    let minor = match parse_u32(&parts[1]) {
        Some(v) => v,
        None => return None,
    };
    let patch = match parse_u32(&parts[2]) {
        Some(v) => v,
        None => return None,
    };
    Some((major, minor, patch))
}

/// `s` is a version string in `MAJOR.MINOR.PATCH` form.
pub fn is_semverish(s: &str) -> (r: bool)
    ensures
        r == parse_semver_spec(s@) is Some,
{
    parse_semver(s).is_some()
}

// ---------------------------------------------------------------------
// sha256 digests
// ---------------------------------------------------------------------

/// A lowercase hexadecimal digit.
pub open spec fn is_lower_hex(c: char) -> bool {
    ('0' <= c && c <= '9') || ('a' <= c && c <= 'f')
}

/// Exactly 64 lowercase hex digits.
pub open spec fn is_sha256_hex_spec(s: Seq<char>) -> bool {
    s.len() == 64 && forall|i: int| 0 <= i < s.len() ==> is_lower_hex(#[trigger] s[i])
}

/// Is `s` exactly 64 lowercase hex digits?
pub fn is_sha256_hex(s: &str) -> (r: bool)
    ensures
        r == is_sha256_hex_spec(s@),
{
    let cs = to_chars(s);
    if cs.len() != 64 {
        return false;
    }
    let mut i: usize = 0;
    while i < cs.len()
        invariant
            cs@ == s@,
            i <= cs@.len(),
            forall|j: int| 0 <= j < i ==> is_lower_hex(#[trigger] cs@[j]),
        decreases cs@.len() - i,
    {
        let c = cs[i];
        if !(('0' <= c && c <= '9') || ('a' <= c && c <= 'f')) {
            return false;
        }
        i = i + 1;
    }
    true
}

// ---------------------------------------------------------------------
// Bundle-relative paths (Windows path rules: `/` and `\` separate)
// ---------------------------------------------------------------------

/// A path separator.
pub open spec fn is_sep(c: char) -> bool {
    c == '/' || c == '\\'
}

/// An ASCII letter.
pub open spec fn is_ascii_alpha(c: char) -> bool {
    ('a' <= c && c <= 'z') || ('A' <= c && c <= 'Z')
}

/// Begins with a drive prefix such as `C:`.
pub open spec fn has_drive_prefix(p: Seq<char>) -> bool {
    p.len() >= 2 && is_ascii_alpha(p[0]) && p[1] == ':'
}

/// Absolute: a drive prefix followed by a separator (`C:\x`), or two
/// leading separators (a UNC or device path).
pub open spec fn is_absolute_path(p: Seq<char>) -> bool {
    ||| (has_drive_prefix(p) && p.len() >= 3 && is_sep(p[2]))
    ||| (p.len() >= 2 && is_sep(p[0]) && is_sep(p[1]))
}

/// The path's first component is a drive prefix or a root.
pub open spec fn has_root_or_prefix(p: Seq<char>) -> bool {
    has_drive_prefix(p) || (p.len() >= 1 && is_sep(p[0]))
}

/// A `..` component starts at index `i`.
pub open spec fn parent_at(p: Seq<char>, i: int) -> bool {
    &&& 0 <= i && i + 2 <= p.len()
    &&& p[i] == '.' && p[i + 1] == '.'
    &&& (i == 0 || is_sep(p[i - 1]))
    &&& (i + 2 == p.len() || is_sep(p[i + 2]))
}

/// Some component of the path is `..`.
pub open spec fn has_parent_component(p: Seq<char>) -> bool {
    exists|i: int| parent_at(p, i)
}

/// Why a bundle-relative path is refused, if it is: the message that
/// names `field`.
pub open spec fn relpath_error(field: Seq<char>, p: Seq<char>) -> Option<Seq<char>> {
    if p.len() == 0 {
        Some(field + " is empty"@)
    } else if is_absolute_path(p) {
        Some(field + " "@ + debug_quoted(p) + " is absolute"@)
    } else if has_root_or_prefix(p) {
        Some(field + " "@ + debug_quoted(p) + " contains a root or drive prefix"@)
    } else if has_parent_component(p) {
        Some(field + " "@ + debug_quoted(p) + " contains '..'"@)
    } else {
        None
    }
}

fn is_sep_exec(c: char) -> (r: bool)
    ensures
        r == is_sep(c),
{
    c == '/' || c == '\\'
}

/// Find a `..` component.
fn find_parent(p: &[char]) -> (r: bool)
    ensures
        r == has_parent_component(p@),
{
    if p.len() < 2 {
        return false;
    }
    let mut i: usize = 0;
    while i <= p.len() - 2
        invariant
            p@.len() >= 2,
            i <= p@.len() - 1,
            forall|j: int| 0 <= j < i ==> !parent_at(p@, j),
        decreases p@.len() - i,
    {
        if p[i] == '.' && p[i + 1] == '.' && (i == 0 || is_sep_exec(p[i - 1])) && (i + 2
            == p.len() || is_sep_exec(p[i + 2])) {
            proof {
                assert(parent_at(p@, i as int));
            }
            return true;
        }
        i = i + 1;
    }
    proof {
        assert forall|j: int| !parent_at(p@, j) by {
            if j >= i {
                assert(!(j + 2 <= p@.len()));
            }
        }
    }
    false
}

/// Build `field + " " + quoted(p) + tail`.
fn path_message(field: &str, p: &str, tail: &str) -> (r: String)
    ensures
        r@ == field@ + " "@ + debug_quoted(p@) + tail@,
{
    let mut m = owned(field);
    m.append(" ");
    let q = quote_debug(p);
    m.append(q.as_str());
    m.append(tail);
    m
}

/// Refuse a path that is empty, absolute, rooted, drive-prefixed or
/// climbs out with `..`; `Err` carries the message naming `field`.
pub fn check_safe_relpath(field: &str, p: &str) -> (r: Result<(), String>)
    ensures
        match relpath_error(field@, p@) {
            None => r is Ok,
            Some(m) => r matches Err(e) && e@ == m,
        },
{
    let cs = to_chars(p);
    if cs.len() == 0 {
        let mut m = owned(field);
        m.append(" is empty");
        return Err(m);
    }
    let drive = cs.len() >= 2 && (('a' <= cs[0] && cs[0] <= 'z') || ('A' <= cs[0] && cs[0]
        <= 'Z')) && cs[1] == ':';
    let absolute = (drive && cs.len() >= 3 && is_sep_exec(cs[2])) || (cs.len() >= 2
        && is_sep_exec(cs[0]) && is_sep_exec(cs[1]));
    if absolute {
        return Err(path_message(field, p, " is absolute"));
    }
    if drive || is_sep_exec(cs[0]) {
        return Err(path_message(field, p, " contains a root or drive prefix"));
    }
    if find_parent(&cs) {
        return Err(path_message(field, p, " contains '..'"));
    }
    Ok(())
}

} // verus!
