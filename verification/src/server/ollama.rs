//! Ollama-compatible request decisions (`/api/*`): timestamps, model
//! cards, and which messages reach the engine.

use vstd::prelude::*;
use crate::cli::{bare_model_name, bare_name};
use crate::npurun::manifest::{ChatMessage, ChatRole, Manifest, Quant};
use crate::server::openai::{has_user, msg_view, msg_views};
use crate::text::{
    contains_seq, decimal, fmt_two_digits, fmt_u64, fmt_zero_padded, owned, str_contains, str_eq,
    two_digits, zero_padded,
};

verus! {

// ---------------------------------------------------------------------
// Calendar
// ---------------------------------------------------------------------

/// A Gregorian leap year.
pub open spec fn is_leap_year(y: int) -> bool {
    y % 4 == 0 && (y % 100 != 0 || y % 400 == 0)
}

/// Number of days in month `m` (1-based) of year `y`.
pub open spec fn days_in_month(y: int, m: int) -> int {
    if m == 2 {
        if is_leap_year(y) {
            29
        } else {
            28
        }
    } else if m == 4 || m == 6 || m == 9 || m == 11 {
        30
    } else {
        31
    }
}

/// `y-m-d` is a date of the proleptic Gregorian calendar.
pub open spec fn valid_date(y: int, m: int, d: int) -> bool {
    1 <= m <= 12 && 1 <= d <= days_in_month(y, m)
}

/// Days from 1970-01-01 to `y-m-d` (negative before it), counting in
/// 400-year eras of 146097 days that start on March 1st.
#[verifier::opaque]
pub open spec fn days_from_civil(y: int, m: int, d: int) -> int {
    let y2 = if m <= 2 {
        y - 1
    } else {
        y
    };
    let era = y2 / 400;
    let yoe = y2 - era * 400;
    let mp = if m > 2 {
        m - 3
    } else {
        m + 9
    };
    let doy = (153 * mp + 2) / 5 + d - 1;
    let doe = yoe * 365 + yoe / 4 - yoe / 100 + doy;
    era * 146097 + doe - 719468
}

/// A day of era `doe` falls in year of era `yoe` (March-based,
/// `0..=399`), at a day of that year.
proof fn lemma_year_of_era(doe: u32, yoe: u32)
    by (bit_vector)
    requires
        doe < 146097,
        yoe == ((doe - doe / 1460 + doe / 36524 - doe / 146096) / 365) as u32,
    ensures
        yoe <= 399,
        365 * yoe + yoe / 4 - yoe / 100 <= doe,
        doe - (365 * yoe + yoe / 4 - yoe / 100) <= 365,
        doe - (365 * yoe + yoe / 4 - yoe / 100) == 365 ==> ((yoe + 1) as u32) % 4 == 0 && (((yoe
            + 1) as u32) % 100 != 0 || ((yoe + 1) as u32) % 400 == 0),
{
}

/// A day of a March-based year falls in month `mp` (from March), at a
/// day of it.
proof fn lemma_month_of_year(doy: u32, mp: u32)
    by (bit_vector)
    requires
        doy <= 365,
        mp == ((5 * doy + 2) / 153) as u32,
    ensures
        mp <= 11,
        ((153 * mp + 2) as u32) / 5 <= doy,
        doy - ((153 * mp + 2) as u32) / 5 + 1 <= 31,
        (mp == 1 || mp == 3 || mp == 6 || mp == 8) ==> doy - ((153 * mp + 2) as u32) / 5 + 1 <= 30,
        (mp == 11 && doy < 365) ==> doy - ((153 * mp + 2) as u32) / 5 + 1 <= 28,
        mp == 11 ==> doy - ((153 * mp + 2) as u32) / 5 + 1 <= 29,
{
}

/// A day of a year of era goes back to that year of era.
proof fn lemma_year_of_era_inverse(yoe: u32, doy: u32, doe: u32)
    by (bit_vector)
    requires
        yoe <= 399,
        doy <= 365,
        doy == 365 ==> ((yoe + 1) as u32) % 4 == 0 && (((yoe + 1) as u32) % 100 != 0 || ((yoe
            + 1) as u32) % 400 == 0),
        doe == (365 * yoe + yoe / 4 - yoe / 100 + doy) as u32,
    ensures
        doe < 146097,
        yoe == ((doe - doe / 1460 + doe / 36524 - doe / 146096) / 365) as u32,
{
}

/// A day of a month (from March) goes back to that month.
proof fn lemma_month_of_year_inverse(mp: u32, d: u32, doy: u32)
    by (bit_vector)
    requires
        mp <= 11,
        1 <= d <= 31,
        (mp == 1 || mp == 3 || mp == 6 || mp == 8) ==> d <= 30,
        mp == 11 ==> d <= 29,
        doy == (((153 * mp + 2) as u32) / 5 + d - 1) as u32,
    ensures
        mp == ((5 * doy + 2) / 153) as u32,
        doy <= 365,
        doy == 365 ==> mp == 11 && d == 29,
{
}

/// Leap years repeat every 400 years.
proof fn lemma_leap_era(era: int, k: int)
    ensures
        is_leap_year(era * 400 + k) == is_leap_year(k),
{
    assert((era * 400 + k) % 4 == k % 4) by (nonlinear_arith);
    assert((era * 400 + k) % 100 == k % 100) by (nonlinear_arith);
    assert((era * 400 + k) % 400 == k % 400) by (nonlinear_arith);
}

/// The era, year of era, month from March, day of year and day of era
/// that `days_from_civil` reads off a valid date, and how they relate.
proof fn lemma_civil_parts(y: int, m: int, d: int) -> (r: (int, int, int, int, int))
    requires
        valid_date(y, m, d),
    ensures
        ({
            let (era, yoe, mp, doy, doe) = r;
            &&& 0 <= yoe < 400
            &&& 0 <= mp <= 11
            &&& 0 <= doy <= 365
            &&& 0 <= doe < 146097
            &&& y == (if m <= 2 {
                era * 400 + yoe + 1
            } else {
                era * 400 + yoe
            })
            &&& m == (if mp < 10 {
                mp + 3
            } else {
                mp - 9
            })
            &&& d == doy - (153 * mp + 2) / 5 + 1
            &&& mp == (5 * doy + 2) / 153
            &&& doy == doe - (365 * yoe + yoe / 4 - yoe / 100)
            &&& yoe == (doe - doe / 1460 + doe / 36524 - doe / 146096) / 365
            &&& days_from_civil(y, m, d) == era * 146097 + doe - 719468
        }),
{
    reveal(days_from_civil);
    let y2 = if m <= 2 {
        y - 1
    } else {
        y
    };
    let era = y2 / 400;
    let yoe = y2 - era * 400;
    let mp = if m > 2 {
        m - 3
    } else {
        m + 9
    };
    let doy = (153 * mp + 2) / 5 + d - 1;
    let doe = yoe * 365 + yoe / 4 - yoe / 100 + doy;
    assert(0 <= yoe < 400) by (nonlinear_arith)
        requires
            era == y2 / 400,
            yoe == y2 - era * 400,
    ;
    lemma_month_of_year_inverse(mp as u32, d as u32, doy as u32);
    if doy == 365 {
        lemma_leap_era(era, yoe + 1);
    }
    lemma_year_of_era_inverse(yoe as u32, doy as u32, doe as u32);
    (era, yoe, mp, doy, doe)
}

/// Two valid dates with the same day count are the same date.
pub proof fn lemma_civil_date_unique(y1: int, m1: int, d1: int, y2: int, m2: int, d2: int)
    requires
        valid_date(y1, m1, d1),
        valid_date(y2, m2, d2),
        days_from_civil(y1, m1, d1) == days_from_civil(y2, m2, d2),
    ensures
        y1 == y2 && m1 == m2 && d1 == d2,
{
    let (era1, yoe1, mp1, doy1, doe1) = lemma_civil_parts(y1, m1, d1);
    let (era2, yoe2, mp2, doy2, doe2) = lemma_civil_parts(y2, m2, d2);
    assert(era1 == era2) by (nonlinear_arith)
        requires
            era1 * 146097 + doe1 == era2 * 146097 + doe2,
            0 <= doe1 < 146097,
            0 <= doe2 < 146097,
    ;
}

/// The valid date `days` days after 1970-01-01.
pub open spec fn civil_from_days(days: int) -> (int, int, int) {
    choose|t: (int, int, int)| valid_date(t.0, t.1, t.2) && days_from_civil(t.0, t.1, t.2) == days
}

/// `z` split into whole eras of 146097 days and a day of era.
fn split_era(z: i64) -> (r: (i64, u32))
    requires
        -784352296365 <= z <= 784352296244,
    ensures
        z == r.0 * 146097 + r.1,
        r.1 < 146097,
        -5368710 <= r.0 <= 5368709,
{
    let era: i64 = if z >= 0 {
        z / 146097
    } else {
        let nz: i64 = -(z + 1);
        -(nz / 146097) - 1
    };
    proof {
        if z < 0 {
            let nz = -(z + 1);
            assert(nz == (nz / 146097) * 146097 + nz % 146097) by (nonlinear_arith);
        } else {
            assert(z == (z / 146097) * 146097 + z % 146097) by (nonlinear_arith);
        }
    }
    let doe: u32 = (z - era * 146097) as u32;
    (era, doe)
}

/// Going back from the parts of a date to its day count.
proof fn lemma_civil_roundtrip(era: int, yoe: int, doy: int, mp: int, d: int, year: int, m: int)
    requires
        0 <= yoe < 400,
        0 <= mp <= 11,
        d == doy - (153 * mp + 2) / 5 + 1,
        m == (if mp < 10 {
            mp + 3
        } else {
            mp - 9
        }),
        year == (if m <= 2 {
            era * 400 + yoe + 1
        } else {
            era * 400 + yoe
        }),
    ensures
        days_from_civil(year, m, d) == era * 146097 + (yoe * 365 + yoe / 4 - yoe / 100 + doy)
            - 719468,
{
    reveal(days_from_civil);
    let y2 = era * 400 + yoe;
    assert(y2 / 400 == era) by (nonlinear_arith)
        requires
            y2 == era * 400 + yoe,
            0 <= yoe < 400,
    ;
}

/// The date decoded from an era and a day of era is the valid date with
/// that day count.
proof fn lemma_decoded_date(
    days: int,
    era: int,
    doe: int,
    yoe: int,
    doy: int,
    mp: int,
    d: int,
    m: int,
    year: int,
)
    requires
        days + 719468 == era * 146097 + doe,
        0 <= doe < 146097,
        0 <= yoe <= 399,
        doy == doe - (365 * yoe + yoe / 4 - yoe / 100),
        0 <= doy <= 365,
        doy == 365 ==> is_leap_year(yoe + 1),
        0 <= mp <= 11,
        d == doy - (153 * mp + 2) / 5 + 1,
        1 <= d <= 31,
        (mp == 1 || mp == 3 || mp == 6 || mp == 8) ==> d <= 30,
        (mp == 11 && doy < 365) ==> d <= 28,
        mp == 11 ==> d <= 29,
        mp == 11 && d == 29 ==> doy == 365,
        m == (if mp < 10 {
            mp + 3
        } else {
            mp - 9
        }),
        year == (if m <= 2 {
            era * 400 + yoe + 1
        } else {
            era * 400 + yoe
        }),
    ensures
        valid_date(year, m, d),
        days_from_civil(year, m, d) == days,
        (year, m, d) == civil_from_days(days),
{
    lemma_civil_roundtrip(era, yoe, doy, mp, d, year, m);
    if mp == 11 {
        lemma_leap_era(era, yoe + 1);
    }
    let t = civil_from_days(days);
    assert(valid_date(t.0, t.1, t.2) && days_from_civil(t.0, t.1, t.2) == days) by {
        let w = (year, m, d);
        assert(valid_date(w.0, w.1, w.2) && days_from_civil(w.0, w.1, w.2) == days);
    }
    lemma_civil_date_unique(t.0, t.1, t.2, year, m, d);
}

/// The civil date `(year, month, day)` of the day `days` after
/// 1970-01-01 (before it when negative), for years that fit in `i32`.
pub fn epoch_days_to_ymd(days: i64) -> (r: (i32, u32, u32))
    requires
        -784353015833 <= days <= 784351576776,
    ensures
        valid_date(r.0 as int, r.1 as int, r.2 as int),
        days_from_civil(r.0 as int, r.1 as int, r.2 as int) == days,
        (r.0 as int, r.1 as int, r.2 as int) == civil_from_days(days as int),
{
    let z: i64 = days + 719468;
    let (era, doe) = split_era(z);
    let yoe: u32 = (doe - doe / 1460 + doe / 36524 - doe / 146096) / 365;
    proof {
        lemma_year_of_era(doe, yoe);
    }
    let y: i64 = yoe as i64 + era * 400;
    let doy: u32 = doe - (365 * yoe + yoe / 4 - yoe / 100);
    let mp: u32 = (5 * doy + 2) / 153;
    proof {
        lemma_month_of_year(doy, mp);
    }
    let d: u32 = doy - (153 * mp + 2) / 5 + 1;
    let m: u32 = if mp < 10 {
        mp + 3
    } else {
        mp - 9
    };
    let year: i64 = if m <= 2 {
        y + 1
    } else {
        y
    };
    proof {
        lemma_decoded_date(
            days as int,
            era as int,
            doe as int,
            yoe as int,
            doy as int,
            mp as int,
            d as int,
            m as int,
            year as int,
        );
    }
    (year as i32, m, d)
}

// ---------------------------------------------------------------------
// Model cards
// ---------------------------------------------------------------------

/// `c` with an ASCII capital lowered.
pub open spec fn ascii_lower_char(c: char) -> char {
    if 'A' <= c && c <= 'Z' {
        ((c as u32) + 32) as char
    } else {
        c
    }
}

/// `str::to_ascii_lowercase`.
pub open spec fn ascii_lowercase(s: Seq<char>) -> Seq<char> {
    s.map_values(|c: char| ascii_lower_char(c))
}

/// Lower an ASCII capital.
fn ascii_lower_char_exec(c: char) -> (r: char)
    ensures
        r == ascii_lower_char(c),
{
    if 'A' <= c && c <= 'Z' {
        ((c as u8) + 32) as char
    } else {
        c
    }
}

/// Lower the ASCII capitals of `s` (`str::to_ascii_lowercase`).
fn ascii_lowercase_exec(s: &str) -> (r: String)
    ensures
        r@ == ascii_lowercase(s@),
{
    let cs = crate::text::to_chars(s);
    let mut out = String::new();
    let mut i: usize = 0;
    while i < cs.len()
        invariant
            cs@ == s@,
            i <= cs@.len(),
            out@ == ascii_lowercase(cs@.take(i as int)),
        decreases cs@.len() - i,
    {
        out.push(ascii_lower_char_exec(cs[i]));
        i = i + 1;
        proof {
            assert(ascii_lowercase(cs@.take(i as int)) =~= ascii_lowercase(cs@.take(i - 1)).push(
                ascii_lower_char(cs@[i - 1]),
            ));
        }
    }
    proof {
        assert(cs@.take(cs@.len() as int) =~= cs@);
    }
    out
}

/// The size hint a model card shows, read off the bundle name; `unknown`
/// when the name gives none.
pub open spec fn parameter_size_hint_spec(name: Seq<char>) -> Seq<char> {
    let lower = ascii_lowercase(name);
    if contains_seq(lower, "phi-3.5-mini"@) || contains_seq(lower, "phi3.5-mini"@) {
        "3.8B"@
    } else if contains_seq(lower, "8b"@) || contains_seq(lower, "-8-"@) {
        "8B"@
    } else if contains_seq(lower, "7b"@) || contains_seq(lower, "-7-"@) {
        "7B"@
    } else if contains_seq(lower, "3b"@) || contains_seq(lower, "-3-"@) {
        "3B"@
    } else {
        "unknown"@
    }
}

/// Model-size hint for `/api/show`, from the bundle name (`phi-3.5-mini`
/// is 3.8B; `...-7b` is 7B); `unknown` rather than a guess.
pub fn parameter_size_hint(arch: &str, name: &str) -> (r: String)
    ensures
        r@ == parameter_size_hint_spec(name@),
{
    let lower = ascii_lowercase_exec(name);
    let l = lower.as_str();
    if str_contains(l, "phi-3.5-mini") || str_contains(l, "phi3.5-mini") {
        owned("3.8B")
    } else if str_contains(l, "8b") || str_contains(l, "-8-") {
        owned("8B")
    } else if str_contains(l, "7b") || str_contains(l, "-7-") {
        owned("7B")
    } else if str_contains(l, "3b") || str_contains(l, "-3-") {
        owned("3B")
    } else {
        owned("unknown")
    }
}

/// The quantization label a model card shows.
pub open spec fn quant_label_spec(q: Quant) -> Seq<char> {
    match q {
        Quant::Int8 => "INT8"@,
        Quant::Int8WInt16A => "INT8(W)/INT16(A)"@,
        Quant::W4A16 => "W4A16"@,
        Quant::W8A16 => "W8A16"@,
        Quant::Int4 => "INT4"@,
        Quant::Fp16 => "FP16"@,
    }
}

/// The quantization label of a scheme.
pub fn quant_label(q: Quant) -> (r: &'static str)
    ensures
        r@ == quant_label_spec(q),
{
    match q {
        Quant::Int8 => "INT8",
        Quant::Int8WInt16A => "INT8(W)/INT16(A)",
        Quant::W4A16 => "W4A16",
        Quant::W8A16 => "W8A16",
        Quant::Int4 => "INT4",
        Quant::Fp16 => "FP16",
    }
}

/// What `/api/show` tells about a bundle (Ollama's model-card shape).
pub struct ModelCard {
    /// License note.
    pub license: &'static str,
    /// Modelfile-style summary: name, SDK and context.
    pub modelfile: String,
    /// `context N`.
    pub parameters: String,
    /// The chat template, empty without one.
    pub template: String,
    /// The default system prompt, empty without a template.
    pub system: String,
    /// Bundle format.
    pub format: &'static str,
    /// Architecture family.
    pub family: String,
    /// Size hint (see `parameter_size_hint`).
    pub parameter_size: String,
    /// Quantization label.
    pub quantization_level: &'static str,
    /// QNN SDK version.
    pub qnn_sdk: String,
    /// Context length.
    pub context: u32,
    /// Vocabulary size.
    pub vocab: u32,
}

/// The modelfile summary of a manifest.
pub open spec fn modelfile_text(m: Manifest) -> Seq<char> {
    "# npurun bundle\nFROM "@ + m.name@ + "\nQNN_SDK "@ + m.qnn_sdk@ + "\nCONTEXT "@ + decimal(
        m.context as nat,
    ) + "\n"@
}

/// The model card of a manifest.
pub fn model_card(m: &Manifest) -> (r: ModelCard)
    ensures
        r.license@ == "see npurun and bundle license files"@,
        r.modelfile@ == modelfile_text(*m),
        r.parameters@ == "context "@ + decimal(m.context as nat),
        r.template@ == match m.chat_template {
            Some(t) => t.template@,
            None => Seq::empty(),
        },
        r.system@ == match m.chat_template {
            Some(t) => t.system_prompt@,
            None => Seq::empty(),
        },
        r.format@ == "qnn-genie-bundle"@,
        r.family@ == m.arch@,
        r.parameter_size@ == parameter_size_hint_spec(m.name@),
        r.quantization_level@ == quant_label_spec(m.quant),
        r.qnn_sdk@ == m.qnn_sdk@,
        r.context == m.context,
        r.vocab == m.vocab,
{
    let mut modelfile = owned("# npurun bundle\nFROM ");
    modelfile.append(m.name.as_str());
    modelfile.append("\nQNN_SDK ");
    modelfile.append(m.qnn_sdk.as_str());
    modelfile.append("\nCONTEXT ");
    modelfile.append(fmt_u64(m.context as u64).as_str());
    modelfile.append("\n");
    let mut parameters = owned("context ");
    parameters.append(fmt_u64(m.context as u64).as_str());
    let (template, system) = match &m.chat_template {
        Some(t) => (owned(t.template.as_str()), owned(t.system_prompt.as_str())),
        None => (String::new(), String::new()),
    };
    ModelCard {
        license: "see npurun and bundle license files",
        modelfile,
        parameters,
        template,
        system,
        format: "qnn-genie-bundle",
        family: owned(m.arch.as_str()),
        parameter_size: parameter_size_hint(m.arch.as_str(), m.name.as_str()),
        quantization_level: quant_label(m.quant),
        qnn_sdk: owned(m.qnn_sdk.as_str()),
        context: m.context,
        vocab: m.vocab,
    }
}

// ---------------------------------------------------------------------
// Requests
// ---------------------------------------------------------------------

/// Ollama streams unless told otherwise.
pub fn default_stream() -> (r: bool)
    ensures
        r,
{
    true
}

/// The model a `/api/show` or `/api/delete` request names, without its
/// `:tag` (`name`, else `model`); `None` when it names none.
pub fn requested_model(name: &Option<String>, model: &Option<String>) -> (r: Option<String>)
    ensures
        match name {
            Some(n) => r matches Some(b) && b@ == bare_name(n@),
            None => match model {
                Some(n) => r matches Some(b) && b@ == bare_name(n@),
                None => r is None,
            },
        },
{
    match name {
        Some(n) => Some(bare_model_name(n.as_str())),
        None => match model {
            Some(n) => Some(bare_model_name(n.as_str())),
            None => None,
        },
    }
}

/// Is `bare` the model this server has loaded? (`/api/show` then reads
/// the loaded manifest; `/api/delete` refuses.)
pub fn is_loaded_model(loaded: &Option<String>, bare: &str) -> (r: bool)
    ensures
        r == match loaded {
            Some(l) => l@ == bare@,
            None => false,
        },
{
    match loaded {
        Some(l) => str_eq(l.as_str(), bare),
        None => false,
    }
}

/// A message of an Ollama `/api/chat` request.
pub struct OllamaMessage {
    /// `system`, `user` or `assistant` (others are ignored).
    pub role: String,
    /// Message text.
    pub content: String,
}

/// An Ollama message as the engine sees it, when its role is known.
pub open spec fn ollama_message_view(m: OllamaMessage) -> Option<(ChatRole, Seq<char>)> {
    if m.role@ == "system"@ {
        Some((ChatRole::System, m.content@))
    } else if m.role@ == "user"@ {
        Some((ChatRole::User, m.content@))
    } else if m.role@ == "assistant"@ {
        Some((ChatRole::Assistant, m.content@))
    } else {
        None
    }
}

/// The messages of an Ollama request the engine sees, in order.
pub open spec fn ollama_views(ms: Seq<OllamaMessage>) -> Seq<(ChatRole, Seq<char>)>
    decreases ms.len(),
{
    if ms.len() == 0 {
        Seq::empty()
    } else {
        let prev = ollama_views(ms.drop_last());
        match ollama_message_view(ms.last()) {
            Some(v) => prev.push(v),
            None => prev,
        }
    }
}

/// The engine's view of two runs of Ollama messages is the view of the
/// first followed by the view of the second.
pub proof fn lemma_ollama_views_concat(a: Seq<OllamaMessage>, b: Seq<OllamaMessage>)
    ensures
        ollama_views(a + b) == ollama_views(a) + ollama_views(b),
    decreases b.len(),
{
    if b.len() == 0 {
        assert(a + b =~= a);
        assert(ollama_views(a) + ollama_views(b) =~= ollama_views(a));
    } else {
        lemma_ollama_views_concat(a, b.drop_last());
        assert((a + b).drop_last() =~= a + b.drop_last());
        assert((a + b).last() == b.last());
        match ollama_message_view(b.last()) {
            Some(v) => {
                assert(ollama_views(a) + ollama_views(b) =~= (ollama_views(a) + ollama_views(
                    b.drop_last(),
                )).push(v));
            },
            None => {},
        }
    }
}

/// Every system, user or assistant message of an Ollama chat request
/// reaches the engine with its role and its text, in its place: after
/// what the messages before it become and before what the messages after
/// it become.
pub proof fn lemma_ollama_roles_kept_in_place(ms: Seq<OllamaMessage>, i: int)
    requires
        0 <= i < ms.len(),
    ensures
        ms[i].role@ == "system"@ ==> ollama_views(ms) == ollama_views(ms.take(i)) + seq![
            (ChatRole::System, ms[i].content@),
        ] + ollama_views(ms.skip(i + 1)),
        ms[i].role@ == "user"@ ==> ollama_views(ms) == ollama_views(ms.take(i)) + seq![
            (ChatRole::User, ms[i].content@),
        ] + ollama_views(ms.skip(i + 1)),
        ms[i].role@ == "assistant"@ ==> ollama_views(ms) == ollama_views(ms.take(i)) + seq![
            (ChatRole::Assistant, ms[i].content@),
        ] + ollama_views(ms.skip(i + 1)),
{
    assert(ms =~= ms.take(i) + seq![ms[i]] + ms.skip(i + 1));
    lemma_ollama_views_concat(ms.take(i) + seq![ms[i]], ms.skip(i + 1));
    lemma_ollama_views_concat(ms.take(i), seq![ms[i]]);
    let one = seq![ms[i]];
    assert(one.drop_last() =~= Seq::<OllamaMessage>::empty());
    assert(one.last() == ms[i]);
    assert(ollama_views(one.drop_last()) =~= Seq::<(ChatRole, Seq<char>)>::empty());
    assert("system"@ != "user"@) by {
        reveal_strlit("system");
        reveal_strlit("user");
        assert("system"@.len() != "user"@.len());
    }
    assert("system"@ != "assistant"@) by {
        reveal_strlit("system");
        reveal_strlit("assistant");
        assert("system"@.len() != "assistant"@.len());
    }
    assert("user"@ != "assistant"@) by {
        reveal_strlit("user");
        reveal_strlit("assistant");
        assert("user"@.len() != "assistant"@.len());
    }
    if ollama_message_view(ms[i]) is Some {
        let v = ollama_message_view(ms[i]).unwrap();
        assert(ollama_views(one) =~= seq![v]);
    }
}

/// The transcript of an `/api/chat` request: its messages of known roles,
/// in order; `None` (refused with 400) when none is a user turn.
pub fn ollama_chat_messages(ms: &Vec<OllamaMessage>) -> (r: Option<Vec<ChatMessage>>)
    ensures
        has_user(ollama_views(ms@)) ==> (r matches Some(v) && msg_views(v@) == ollama_views(ms@)),
        !has_user(ollama_views(ms@)) ==> r is None,
{
    let mut out: Vec<ChatMessage> = Vec::new();
    let mut any_user = false;
    let mut i: usize = 0;
    while i < ms.len()
        invariant
            i <= ms@.len(),
            msg_views(out@) == ollama_views(ms@.take(i as int)),
            any_user <==> has_user(ollama_views(ms@.take(i as int))),
        decreases ms@.len() - i,
    {
        proof {
            assert(ms@.take(i + 1).drop_last() =~= ms@.take(i as int));
            assert(ms@.take(i + 1).last() == ms@[i as int]);
        }
        let ghost prev = ollama_views(ms@.take(i as int));
        let m = &ms[i];
        let role = m.role.as_str();
        let conv: Option<ChatMessage> = if str_eq(role, "system") {
            Some(ChatMessage { role: ChatRole::System, content: owned(m.content.as_str()) })
        } else if str_eq(role, "user") {
            Some(ChatMessage { role: ChatRole::User, content: owned(m.content.as_str()) })
        } else if str_eq(role, "assistant") {
            Some(ChatMessage { role: ChatRole::Assistant, content: owned(m.content.as_str()) })
        } else {
            None
        };
        match conv {
            Some(c) => {
                if c.role == ChatRole::User {
                    any_user = true;
                }
                out.push(c);
                proof {
                    let nv = prev.push(msg_view(c));
                    assert(msg_views(out@) =~= nv);
                    if c.role == ChatRole::User {
                        assert(nv[nv.len() - 1].0 == ChatRole::User);
                    }
                    if has_user(nv) {
                        let j = choose|j: int| 0 <= j < nv.len() && (#[trigger] nv[j]).0 == ChatRole::User;
                        if j < prev.len() {
                            assert(prev[j] == nv[j]);
                        }
                    }
                    if has_user(prev) {
                        let j = choose|j: int| 0 <= j < prev.len() && (#[trigger] prev[j]).0 == ChatRole::User;
                        assert(nv[j] == prev[j]);
                    }
                }
            },
            None => {},
        }
        i = i + 1;
    }
    proof {
        assert(ms@.take(ms@.len() as int) =~= ms@);
    }
    if any_user {
        Some(out)
    } else {
        None
    }
}

// ---------------------------------------------------------------------
// Timestamps
// ---------------------------------------------------------------------

/// A year as `{:04}` writes it.
pub open spec fn year_text(y: int) -> Seq<char> {
    if y >= 0 {
        zero_padded(y as nat, 4)
    } else {
        seq!['-'] + zero_padded((-y) as nat, 3)
    }
}

/// The UTC timestamp `YYYY-MM-DDThh:mm:ssZ` of the instant `secs` seconds
/// after 1970-01-01T00:00:00Z.
pub open spec fn iso8601_text(secs: int) -> Seq<char> {
    let days = secs / 86400;
    let rem = secs % 86400;
    let ymd = civil_from_days(days);
    year_text(ymd.0) + seq!['-'] + two_digits(ymd.1 as nat) + seq!['-'] + two_digits(
        ymd.2 as nat,
    ) + seq!['T'] + two_digits((rem / 3600) as nat) + seq![':'] + two_digits(
        ((rem % 3600) / 60) as nat,
    ) + seq![':'] + two_digits((rem % 60) as nat) + seq!['Z']
}

/// `secs` split into whole days and seconds into the day (Euclidean).
fn split_days(secs: i64) -> (r: (i64, u64))
    requires
        -67768100567971200 <= secs <= 67767976233532799,
    ensures
        r.0 == secs / 86400,
        r.1 == secs % 86400,
{
    if secs >= 0 {
        (secs / 86400, (secs % 86400) as u64)
    } else {
        let n: i64 = -(secs + 1);
        let q = n / 86400;
        let m = n % 86400;
        proof {
            assert(n == q * 86400 + m) by (nonlinear_arith)
                requires
                    q == n / 86400,
                    m == n % 86400,
                    n >= 0,
            ;
            assert(secs == (-q - 1) * 86400 + (86399 - m));
            assert(secs / 86400 == -q - 1 && secs % 86400 == 86399 - m) by (nonlinear_arith)
                requires
                    secs == (-q - 1) * 86400 + (86399 - m),
                    0 <= m < 86400,
            ;
        }
        (-q - 1, (86399 - m) as u64)
    }
}

/// A year as `{:04}` writes it.
fn fmt_year(y: i32) -> (r: String)
    ensures
        r@ == year_text(y as int),
{
    if y >= 0 {
        fmt_zero_padded(y as u64, 4)
    } else {
        let mut out = String::new();
        out.push('-');
        let a: i64 = -(y as i64);
        out.append(fmt_zero_padded(a as u64, 3).as_str());
        out
    }
}

/// The UTC timestamp `YYYY-MM-DDThh:mm:ssZ` of `secs` seconds after the
/// epoch (years that fit in `i32`).
pub fn iso8601_from_secs(secs: i64) -> (r: String)
    requires
        -67768100567971200 <= secs <= 67767976233532799,
    ensures
        r@ == iso8601_text(secs as int),
{
    let (days, rem) = split_days(secs);
    let (y, mo, d) = epoch_days_to_ymd(days);
    let mut out = fmt_year(y);
    out.push('-');
    out.append(fmt_two_digits(mo as u64).as_str());
    out.push('-');
    out.append(fmt_two_digits(d as u64).as_str());
    out.push('T');
    out.append(fmt_two_digits(rem / 3600).as_str());
    out.push(':');
    out.append(fmt_two_digits((rem % 3600) / 60).as_str());
    out.push(':');
    out.append(fmt_two_digits(rem % 60).as_str());
    out.push('Z');
    out
}

// ---------------------------------------------------------------------
// Streamed replies
// ---------------------------------------------------------------------

/// Which endpoint a streamed reply answers.
#[derive(Clone, Copy, Debug, PartialEq, Eq, Structural)]
pub enum ReplyShape {
    /// `/api/generate`.
    Generate,
    /// `/api/chat`.
    Chat,
}

/// What the engine thread reports while streaming.
#[derive(Debug)]
pub enum StreamEvent {
    /// A piece of reply text.
    Content(String),
    /// The reply is complete.
    Done,
    /// Inference failed with this message.
    Error(String),
}

/// One NDJSON line of a streamed reply (model name and timestamp are
/// added when it is written).
#[derive(Debug, PartialEq, Eq)]
pub enum NdjsonFrame {
    /// A `/api/generate` chunk.
    Generate {
        /// The reply text of this chunk.
        response: String,
        /// Whether this is the last chunk.
        done: bool,
    },
    /// A `/api/chat` chunk (an assistant message).
    Chat {
        /// The reply text of this chunk.
        content: String,
        /// Whether this is the last chunk.
        done: bool,
    },
    /// An error line.
    Error {
        /// What went wrong.
        message: String,
    },
}

/// The line written for an engine event: text chunks and an empty last
/// chunk in the endpoint's shape; errors as error lines.
pub fn ndjson_frame(shape: ReplyShape, event: StreamEvent) -> (r: NdjsonFrame)
    ensures
        match event {
            StreamEvent::Content(s) => match shape {
                ReplyShape::Generate => r matches NdjsonFrame::Generate { response, done }
                    && response@ == s@ && !done,
                ReplyShape::Chat => r matches NdjsonFrame::Chat { content, done } && content@
                    == s@ && !done,
            },
            StreamEvent::Done => match shape {
                ReplyShape::Generate => r matches NdjsonFrame::Generate { response, done }
                    && response@.len() == 0 && done,
                ReplyShape::Chat => r matches NdjsonFrame::Chat { content, done } && content@.len()
                    == 0 && done,
            },
            StreamEvent::Error(m) => r matches NdjsonFrame::Error { message } && message@ == m@,
        },
{
    match event {
        StreamEvent::Content(s) => match shape {
            ReplyShape::Generate => NdjsonFrame::Generate { response: s, done: false },
            ReplyShape::Chat => NdjsonFrame::Chat { content: s, done: false },
        },
        StreamEvent::Done => match shape {
            ReplyShape::Generate => NdjsonFrame::Generate { response: String::new(), done: true },
            ReplyShape::Chat => NdjsonFrame::Chat { content: String::new(), done: true },
        },
        StreamEvent::Error(m) => NdjsonFrame::Error { message: m },
    }
}

} // verus!
