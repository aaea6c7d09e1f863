//! Text the `npurun` command line computes: model names, CSV fields,
//! uptimes, token estimates and the NPU architecture list.

use vstd::prelude::*;
use vstd::utf8::{decode_utf8, valid_utf8};
use crate::json::{
    Json, json_get, json_get_bool, json_get_str, json_get_u64, json_member, json_str_member,
    json_u64_member, json_bool_member, parse_json, json_parse,
};
use crate::digest_map::{
    chars_lt, key_lt, lemma_key_lt_irreflexive, lemma_key_lt_total, lemma_key_lt_transitive,
};
use crate::rules::{split_at_char, split_char};
use crate::text::{
    decimal, find_from, find_spec, fmt_u64, is_digit, is_digit_exec, is_ws, is_ws_exec,
    lemma_find_spec, occurs_at, owned, replace_all, replace_str, str_eq, string_views, substring, to_chars,
    trim, trim_range,
};

verus! {

// ---------------------------------------------------------------------
// Model names
// ---------------------------------------------------------------------

/// `name` without an Ollama-style `:tag` (the text before the first `:`).
pub open spec fn bare_name(name: Seq<char>) -> Seq<char> {
    match find_spec(name, seq![':'], 0) {
        Some(i) => name.take(i),
        None => name,
    }
}

/// Strip an Ollama-style `:tag` suffix, so that `phi-3.5-mini:latest`
/// names the same model as `phi-3.5-mini`.
pub fn bare_model_name(name: &str) -> (r: String)
    ensures
        r@ == bare_name(name@),
{
    let cs = to_chars(name);
    let colon: Vec<char> = vec![':'];
    proof {
        assert(colon@ =~= seq![':']);
    }
    match find_from(&cs, &colon, 0) {
        Some(i) => {
            let r = substring(&cs, 0, i);
            proof {
                assert(cs@.subrange(0, i as int) =~= cs@.take(i as int));
            }
            r
        },
        None => owned(name),
    }
}

/// A one-character pattern occurs exactly where that character stands.
proof fn lemma_occurs_char(s: Seq<char>, c: char, i: int)
    ensures
        occurs_at(s, seq![c], i) <==> (0 <= i < s.len() && s[i] == c),
{
    if 0 <= i < s.len() {
        assert(s.subrange(i, i + 1)[0] == s[i]);
        if s[i] == c {
            assert(s.subrange(i, i + 1) =~= seq![c]);
        }
    }
}

/// Where the first `:` of a name stands, if it has one.
proof fn lemma_first_colon(s: Seq<char>)
    ensures
        match find_spec(s, seq![':'], 0) {
            Some(i) => 0 <= i < s.len() && s[i] == ':' && forall|j: int|
                0 <= j < i ==> #[trigger] s[j] != ':',
            None => forall|j: int| 0 <= j < s.len() ==> #[trigger] s[j] != ':',
        },
{
    lemma_find_spec(s, seq![':'], 0);
    match find_spec(s, seq![':'], 0) {
        Some(i) => {
            lemma_occurs_char(s, ':', i);
            assert forall|j: int| 0 <= j < i implies #[trigger] s[j] != ':' by {
                lemma_occurs_char(s, ':', j);
            }
        },
        None => {
            assert forall|j: int| 0 <= j < s.len() implies #[trigger] s[j] != ':' by {
                lemma_occurs_char(s, ':', j);
            }
        },
    }
}

/// A name with no `:` is its own bare name.
proof fn lemma_bare_name_plain(s: Seq<char>)
    requires
        forall|j: int| 0 <= j < s.len() ==> #[trigger] s[j] != ':',
    ensures
        bare_name(s) == s,
{
    lemma_first_colon(s);
    if let Some(i) = find_spec(s, seq![':'], 0) {
        assert(s[i] != ':');
    }
}

/// A `:tag` appended to a name does not change the model it names, and
/// a bare name is already bare.
pub proof fn lemma_bare_name_tag(name: Seq<char>, tag: Seq<char>)
    ensures
        bare_name(name + seq![':'] + tag) == bare_name(name),
        bare_name(bare_name(name)) == bare_name(name),
{
    let s = name + seq![':'] + tag;
    lemma_first_colon(name);
    lemma_first_colon(s);
    assert forall|j: int| 0 <= j < name.len() implies #[trigger] s[j] == name[j] by {}
    assert(s[name.len() as int] == ':');
    let end: int = match find_spec(name, seq![':'], 0) {
        Some(i) => i,
        None => name.len() as int,
    };
    match find_spec(s, seq![':'], 0) {
        Some(k) => {
            assert(s[end] == ':');
            if k < end {
                assert(s[k] == name[k]);
            }
            assert(k == end);
            assert(s.take(k) =~= name.take(end));
            if find_spec(name, seq![':'], 0) is None {
                assert(name.take(end) =~= name);
            }
        },
        None => {
            assert(s[name.len() as int] != ':');
        },
    }
    let b = bare_name(name);
    assert forall|j: int| 0 <= j < b.len() implies #[trigger] b[j] != ':' by {
        assert(b[j] == name[j]);
    }
    lemma_bare_name_plain(b);
}

// ---------------------------------------------------------------------
// CSV
// ---------------------------------------------------------------------

/// A character that forces a CSV field into quotes.
pub open spec fn is_csv_special(c: char) -> bool {
    c == ',' || c == '"' || c == '\n' || c == '\r'
}

/// A field as RFC 4180 writes it: quoted, with inner quotes doubled, when
/// it holds a comma, quote or line break; bare otherwise.
pub open spec fn csv_field_spec(s: Seq<char>) -> Seq<char> {
    if exists|i: int| 0 <= i < s.len() && is_csv_special(#[trigger] s[i]) {
        seq!['"'] + replace_all(s, seq!['"'], seq!['"', '"']) + seq!['"']
    } else {
        s
    }
}

/// Quote a CSV field when it needs it (RFC 4180).
pub fn csv_field(s: &str) -> (r: String)
    ensures
        r@ == csv_field_spec(s@),
{
    let cs = to_chars(s);
    let mut special = false;
    let mut i: usize = 0;
    while i < cs.len()
        invariant
            cs@ == s@,
            i <= cs@.len(),
            special <==> exists|j: int| 0 <= j < i && is_csv_special(#[trigger] cs@[j]),
        decreases cs@.len() - i,
    {
        let c = cs[i];
        if c == ',' || c == '"' || c == '\n' || c == '\r' {
            special = true;
        }
        i = i + 1;
    }
    if special {
        let quote = "\"";
        let doubled = "\"\"";
        proof {
            reveal_strlit("\"");
            reveal_strlit("\"\"");
        }
        let escaped = replace_str(s, quote, doubled);
        let mut out = String::new();
        out.push('"');
        out.append(escaped.as_str());
        out.push('"');
        proof {
            assert(quote@ =~= seq!['"']);
            assert(doubled@ =~= seq!['"', '"']);
            assert(out@ =~= seq!['"'] + escaped@ + seq!['"']);
        }
        out
    } else {
        owned(s)
    }
}

// ---------------------------------------------------------------------
// Uptime
// ---------------------------------------------------------------------

/// `secs` as `Hh Mm Ss`, dropping leading zero units (`Mm Ss`, `Ss`).
pub open spec fn uptime_text(secs: nat) -> Seq<char> {
    let h = secs / 3600;
    let m = (secs % 3600) / 60;
    let s = secs % 60;
    if h > 0 {
        decimal(h) + seq!['h', ' '] + decimal(m) + seq!['m', ' '] + decimal(s) + seq!['s']
    } else if m > 0 {
        decimal(m) + seq!['m', ' '] + decimal(s) + seq!['s']
    } else {
        decimal(s) + seq!['s']
    }
}

/// A server uptime for humans.
pub fn format_uptime(secs: u64) -> (r: String)
    ensures
        r@ == uptime_text(secs as nat),
{
    let h = secs / 3600;
    let m = (secs % 3600) / 60;
    let s = secs % 60;
    let mut out = String::new();
    if h > 0 {
        out.append(fmt_u64(h).as_str());
        out.push('h');
        out.push(' ');
    }
    if h > 0 || m > 0 {
        out.append(fmt_u64(m).as_str());
        out.push('m');
        out.push(' ');
    }
    out.append(fmt_u64(s).as_str());
    out.push('s');
    proof {
        let ht = decimal(h as nat);
        let mt = decimal(m as nat);
        let st = decimal(s as nat);
        if h > 0 {
            assert(out@ =~= ht + seq!['h', ' '] + mt + seq!['m', ' '] + st + seq!['s']);
        } else if m > 0 {
            assert(out@ =~= mt + seq!['m', ' '] + st + seq!['s']);
        } else {
            assert(out@ =~= st + seq!['s']);
        }
    }
    out
}

// ---------------------------------------------------------------------
// Token estimate
// ---------------------------------------------------------------------

/// Number of whitespace-separated words in `s` (`split_whitespace`).
pub open spec fn word_count(s: Seq<char>) -> nat
    decreases s.len(),
{
    if s.len() == 0 {
        0
    } else if !is_ws(s.last()) && (s.len() == 1 || is_ws(s[s.len() - 2])) {
        word_count(s.drop_last()) + 1
    } else {
        word_count(s.drop_last())
    }
}

/// A word count never exceeds the length.
proof fn lemma_word_count_le(s: Seq<char>)
    ensures
        word_count(s) <= s.len(),
    decreases s.len(),
{
    if s.len() > 0 {
        lemma_word_count_le(s.drop_last());
    }
}

/// Rough token count of generated text: 1.3 tokens per word, rounded to
/// the nearest whole token (halves up).
pub fn approx_token_count(s: &str) -> (r: usize)
    requires
        s@.len() <= usize::MAX / 2,
    ensures
        r == (13 * word_count(s@) + 5) / 10,
{
    let cs = to_chars(s);
    let mut words: usize = 0;
    let mut i: usize = 0;
    while i < cs.len()
        invariant
            cs@ == s@,
            i <= cs@.len(),
            cs@.len() <= usize::MAX / 2,
            words == word_count(cs@.take(i as int)),
        decreases cs@.len() - i,
    {
        proof {
            assert(cs@.take(i + 1).drop_last() =~= cs@.take(i as int));
            lemma_word_count_le(cs@.take(i as int));
        }
        let c = cs[i];
        if !is_ws_exec(c) && (i == 0 || is_ws_exec(cs[i - 1])) {
            words = words + 1;
        }
        i = i + 1;
    }
    proof {
        assert(cs@.take(cs@.len() as int) =~= cs@);
        lemma_word_count_le(cs@);
    }
    let w = words as u128;
    ((13 * w + 5) / 10) as usize
}

// ---------------------------------------------------------------------
// Hexagon architectures
// ---------------------------------------------------------------------

/// `hexagon-v`.
pub open spec fn hexagon_prefix() -> Seq<char> {
    seq!['h', 'e', 'x', 'a', 'g', 'o', 'n', '-', 'v']
}

/// `hexagon-v` followed by one or more ASCII digits.
pub open spec fn is_hexagon_arch_name(s: Seq<char>) -> bool {
    &&& s.len() > 9
    &&& s.take(9) == hexagon_prefix()
    &&& forall|i: int| 9 <= i < s.len() ==> is_digit(#[trigger] s[i])
}

/// The architecture names among `names`, in order.
pub open spec fn hexagon_names(names: Seq<Seq<char>>) -> Seq<Seq<char>>
    decreases names.len(),
{
    if names.len() == 0 {
        Seq::empty()
    } else if is_hexagon_arch_name(names.last()) {
        hexagon_names(names.drop_last()).push(names.last())
    } else {
        hexagon_names(names.drop_last())
    }
}

/// `s` is in ascending order.
pub open spec fn sorted_names(s: Seq<Seq<char>>) -> bool {
    forall|i: int, j: int| 0 <= i < j < s.len() ==> !key_lt(#[trigger] s[j], #[trigger] s[i])
}

/// `xs` joined with `sep`.
pub open spec fn join_with(xs: Seq<Seq<char>>, sep: Seq<char>) -> Seq<char>
    decreases xs.len(),
{
    if xs.len() == 0 {
        Seq::empty()
    } else if xs.len() == 1 {
        xs[0]
    } else {
        join_with(xs.drop_last(), sep) + sep + xs.last()
    }
}

/// Is `s` an architecture directory name?
fn is_hexagon_arch_name_exec(s: &str) -> (r: bool)
    ensures
        r == is_hexagon_arch_name(s@),
{
    let cs = to_chars(s);
    let p: Vec<char> = vec!['h', 'e', 'x', 'a', 'g', 'o', 'n', '-', 'v'];
    let ghost ps = hexagon_prefix();
    proof {
        assert(p@ =~= ps);
        assert(ps.len() == 9);
    }
    if cs.len() <= p.len() {
        return false;
    }
    let mut i: usize = 0;
    while i < p.len()
        invariant
            cs@ == s@,
            p@ == ps,
            ps == hexagon_prefix(),
            cs@.len() > p@.len(),
            i <= p@.len(),
            forall|k: int| 0 <= k < i ==> cs@[k] == p@[k],
        decreases p@.len() - i,
    {
        if cs[i] != p[i] {
            proof {
                assert(cs@.take(ps.len() as int)[i as int] == cs@[i as int]);
                assert(cs@.take(ps.len() as int) != ps);
                assert(!is_hexagon_arch_name(s@));
            }
            return false;
        }
        i = i + 1;
    }
    proof {
        assert(cs@.take(ps.len() as int) =~= ps);
    }
    let mut j: usize = p.len();
    while j < cs.len()
        invariant
            cs@ == s@,
            p@ == ps,
            ps == hexagon_prefix(),
            cs@.take(ps.len() as int) == ps,
            cs@.len() > ps.len(),
            ps.len() <= j <= cs@.len(),
            forall|k: int| ps.len() <= k < j ==> is_digit(#[trigger] cs@[k]),
        decreases cs@.len() - j,
    {
        if !is_digit_exec(cs[j]) {
            proof {
                assert(!is_digit(cs@[j as int]));
                assert(!is_hexagon_arch_name(s@));
            }
            return false;
        }
        j = j + 1;
    }
    true
}

/// Insert `x` into the ascending `v`, after any equal names.
fn insert_sorted_name(v: &mut Vec<String>, x: String)
    requires
        sorted_names(string_views(old(v)@)),
    ensures
        sorted_names(string_views(final(v)@)),
        string_views(final(v)@).to_multiset() == string_views(old(v)@).to_multiset().insert(x@),
{
    let ghost before = string_views(v@);
    let xc = to_chars(x.as_str());
    let mut pos: usize = v.len();
    let mut stop = false;
    while pos > 0 && !stop
        invariant
            pos <= v@.len(),
            string_views(v@) == before,
            xc@ == x@,
            forall|k: int| pos <= k < before.len() ==> key_lt(x@, #[trigger] before[k]),
            stop ==> pos > 0 && !key_lt(x@, before[pos - 1]),
        decreases pos + (if stop { 0int } else { 1int }),
    {
        let yc = to_chars(v[pos - 1].as_str());
        proof {
            assert(before[pos - 1] == v@[pos - 1]@);
        }
        if chars_lt(&xc, &yc) {
            pos = pos - 1;
        } else {
            stop = true;
        }
    }
    v.insert(pos, x);
    proof {
        let after = string_views(v@);
        assert(after =~= before.insert(pos as int, x@));
        assert forall|i: int, j: int| 0 <= i < j < after.len() implies !key_lt(
            #[trigger] after[j],
            #[trigger] after[i],
        ) by {
            if j < pos {
                assert(after[i] == before[i] && after[j] == before[j]);
            } else if i > pos {
                assert(after[i] == before[i - 1] && after[j] == before[j - 1]);
            } else if i < pos && j > pos {
                assert(after[i] == before[i] && after[j] == before[j - 1]);
            } else if j == pos {
                let y = before[pos - 1];
                if key_lt(x@, before[i]) {
                    lemma_key_lt_total(x@, y);
                    if x@ == y {
                        assert(key_lt(y, before[i]));
                    } else if key_lt(y, x@) {
                        lemma_key_lt_transitive(y, x@, before[i]);
                    }
                    if i < pos - 1 {
                        assert(!key_lt(before[pos - 1], before[i]));
                    } else {
                        lemma_key_lt_irreflexive(y);
                    }
                }
            } else {
                assert(i == pos);
                let z = before[j - 1];
                assert(key_lt(x@, z));
                if key_lt(z, x@) {
                    lemma_key_lt_transitive(x@, z, x@);
                    lemma_key_lt_irreflexive(x@);
                }
            }
        }
        vstd::seq_lib::to_multiset_insert(before, pos as int, x@);
    }
}

/// `names` in ascending order (`sort` on strings).
pub fn sort_names(names: Vec<String>) -> (r: Vec<String>)
    ensures
        sorted_names(string_views(r@)),
        string_views(r@).to_multiset() == string_views(names@).to_multiset(),
{
    let ghost all = string_views(names@);
    let mut out: Vec<String> = Vec::new();
    let mut rest = names;
    let ghost mut i: int = 0;
    proof {
        assert(all.take(0) =~= Seq::<Seq<char>>::empty());
        assert(string_views(out@) =~= Seq::<Seq<char>>::empty());
        assert(string_views(rest@) =~= all.skip(0));
    }
    while rest.len() > 0
        invariant
            0 <= i <= all.len(),
            string_views(rest@) == all.skip(i),
            sorted_names(string_views(out@)),
            string_views(out@).to_multiset() == all.take(i).to_multiset(),
        decreases rest@.len(),
    {
        let ghost old_rest = rest@;
        proof {
            assert(string_views(old_rest).len() == old_rest.len());
            assert(all.skip(i).len() == all.len() - i);
            assert(string_views(old_rest)[0] == old_rest[0]@);
        }
        let name = rest.remove(0);
        proof {
            assert(all.skip(i)[0] == name@);
            assert forall|k: int| 0 <= k < rest@.len() implies #[trigger] string_views(rest@)[k]
                == all.skip(i + 1)[k] by {
                assert(rest@[k] == old_rest[k + 1]);
                assert(string_views(old_rest)[k + 1] == all.skip(i)[k + 1]);
            }
            assert(string_views(rest@) =~= all.skip(i + 1));
            assert(all.take(i + 1) =~= all.take(i).push(name@));
            all.take(i).to_multiset_ensures();
        }
        insert_sorted_name(&mut out, name);
        proof {
            i = i + 1;
        }
    }
    proof {
        assert(all.take(i) =~= all);
    }
    out
}

/// The NPU architectures among the names of the SDK's `lib` directory
/// (`hexagon-vNN`), sorted and joined with `, `; `None` when there are
/// none.
pub fn hexagon_arch_list(names: Vec<String>) -> (r: Option<String>)
    ensures
        match r {
            Some(s) => hexagon_names(string_views(names@)).len() > 0 && exists|
                sorted: Seq<Seq<char>>,
            |
                #![trigger sorted_names(sorted)]
                sorted_names(sorted) && sorted.to_multiset() == hexagon_names(
                    string_views(names@),
                ).to_multiset() && s@ == join_with(sorted, seq![',', ' ']),
            None => hexagon_names(string_views(names@)).len() == 0,
        },
{
    let ghost all = string_views(names@);
    let mut found: Vec<String> = Vec::new();
    let mut rest = names;
    let ghost mut i: int = 0;
    proof {
        assert(all.take(0) =~= Seq::<Seq<char>>::empty());
        assert(hexagon_names(all.take(0)) =~= Seq::<Seq<char>>::empty());
        assert(string_views(found@) =~= Seq::<Seq<char>>::empty());
        assert(string_views(rest@) =~= all.skip(0));
    }
    while rest.len() > 0
        invariant
            0 <= i <= all.len(),
            string_views(rest@) == all.skip(i),
            sorted_names(string_views(found@)),
            string_views(found@).to_multiset() == hexagon_names(
                all.take(i),
            ).to_multiset(),
        decreases rest@.len(),
    {
        let ghost old_rest = rest@;
        proof {
            assert(string_views(old_rest).len() == old_rest.len());
            assert(all.skip(i).len() == all.len() - i);
            assert(i < all.len());
            assert(string_views(old_rest)[0] == old_rest[0]@);
        }
        let name = rest.remove(0);
        proof {
            assert(all.skip(i)[0] == name@);
            assert forall|k: int| 0 <= k < rest@.len() implies #[trigger] string_views(rest@)[k] == all.skip(i + 1)[k] by {
                assert(rest@[k] == old_rest[k + 1]);
                assert(string_views(old_rest)[k + 1] == all.skip(i)[k + 1]);
            }
            assert(string_views(rest@) =~= all.skip(i + 1));
            assert(all.take(i + 1).drop_last() =~= all.take(i));
            assert(all.take(i + 1).last() == name@);
        }
        if is_hexagon_arch_name_exec(name.as_str()) {
            insert_sorted_name(&mut found, name);
            proof {
                hexagon_names(all.take(i)).to_multiset_ensures();
            }
        }
        proof {
            i = i + 1;
        }
    }
    proof {
        assert(all.take(i) =~= all);
    }
    let ghost sorted = string_views(found@);
    if found.len() == 0 {
        proof {
            hexagon_names(all).to_multiset_ensures();
            sorted.to_multiset_ensures();
            if hexagon_names(all).len() > 0 {
                assert(hexagon_names(all).to_multiset().count(hexagon_names(all)[0]) > 0);
            }
        }
        return None;
    }
    let mut out = String::new();
    let mut k: usize = 0;
    while k < found.len()
        invariant
            sorted == string_views(found@),
            k <= found@.len(),
            found@.len() > 0,
            out@ == join_with(sorted.take(k as int), seq![',', ' ']),
        decreases found@.len() - k,
    {
        proof {
            assert(sorted.take(k + 1).drop_last() =~= sorted.take(k as int));
            assert(sorted.take(k + 1).last() == found@[k as int]@);
        }
        if k > 0 {
            out.push(',');
            out.push(' ');
        }
        out.append(found[k].as_str());
        proof {
            if k == 0 {
                assert(sorted.take(1) =~= seq![found@[0]@]);
            }
            assert(out@ =~= join_with(sorted.take(k + 1), seq![',', ' ']));
        }
        k = k + 1;
    }
    proof {
        assert(sorted.take(found@.len() as int) =~= sorted);
        sorted.to_multiset_ensures();
        hexagon_names(all).to_multiset_ensures();
        assert(sorted.to_multiset().count(sorted[0]) > 0);
    }
    Some(out)
}

// ---------------------------------------------------------------------
// Server-sent events
// ---------------------------------------------------------------------

/// `pat` occurs in `s` at `i`.
pub open spec fn bytes_at(s: Seq<u8>, pat: Seq<u8>, i: int) -> bool {
    0 <= i && i + pat.len() <= s.len() && s.subrange(i, i + pat.len()) == pat
}

/// First position at or after `from` where `pat` occurs in `s`.
pub open spec fn find_bytes(s: Seq<u8>, pat: Seq<u8>, from: int) -> Option<int>
    decreases s.len() - from,
{
    if from < 0 || from > s.len() {
        None
    } else if bytes_at(s, pat, from) {
        Some(from)
    } else if from == s.len() {
        None
    } else {
        find_bytes(s, pat, from + 1)
    }
}

/// Where the first complete event of `buf` ends, and the length of the
/// blank line that ends it (`\n\n` or `\r\n\r\n`, whichever comes first).
pub open spec fn event_terminator(buf: Seq<u8>) -> Option<(int, int)> {
    let lf = find_bytes(buf, seq![10u8, 10u8], 0);
    let crlf = find_bytes(buf, seq![13u8, 10u8, 13u8, 10u8], 0);
    match (lf, crlf) {
        (Some(a), Some(b)) => if a <= b {
            Some((a, 2))
        } else {
            Some((b, 4))
        },
        (Some(a), None) => Some((a, 2)),
        (None, Some(b)) => Some((b, 4)),
        (None, None) => None,
    }
}

/// The first occurrence of `pat` in `s` from `from` on.
fn find_bytes_exec(s: &[u8], pat: &[u8], from: usize) -> (r: Option<usize>)
    requires
        from <= s@.len(),
    ensures
        match r {
            Some(i) => find_bytes(s@, pat@, from as int) == Some(i as int),
            None => find_bytes(s@, pat@, from as int) is None,
        },
    decreases s@.len() - from,
{
    let n = s.len();
    let mut ok = pat.len() <= n - from;
    let mut k: usize = 0;
    while ok && k < pat.len()
        invariant
            n == s@.len(),
            from <= s@.len(),
            ok ==> from + pat@.len() <= s@.len(),
            !ok ==> from + pat@.len() > s@.len() || !bytes_at(s@, pat@, from as int),
            k <= pat@.len(),
            ok ==> forall|m: int| 0 <= m < k ==> s@[from + m] == pat@[m],
        decreases pat@.len() - k + (if ok { 1int } else { 0int }),
    {
        if s[from + k] != pat[k] {
            proof {
                assert(s@.subrange(from as int, from + pat@.len())[k as int] == s@[from + k]);
            }
            ok = false;
        } else {
            k = k + 1;
        }
    }
    if ok {
        proof {
            assert(s@.subrange(from as int, from + pat@.len()) =~= pat@);
        }
        return Some(from);
    }
    if from == s.len() {
        return None;
    }
    find_bytes_exec(s, pat, from + 1)
}

/// Where the next complete event in `buf` ends and how long its
/// terminating blank line is, if a whole event is buffered.
pub fn find_event_terminator(buf: &[u8]) -> (r: Option<(usize, usize)>)
    ensures
        match r {
            Some((e, n)) => event_terminator(buf@) == Some((e as int, n as int)),
            None => event_terminator(buf@) is None,
        },
{
    let lf_pat: [u8; 2] = [10u8, 10u8];
    let crlf_pat: [u8; 4] = [13u8, 10u8, 13u8, 10u8];
    proof {
        assert(lf_pat@ =~= seq![10u8, 10u8]);
        assert(crlf_pat@ =~= seq![13u8, 10u8, 13u8, 10u8]);
    }
    let lf = find_bytes_exec(buf, &lf_pat, 0);
    let crlf = find_bytes_exec(buf, &crlf_pat, 0);
    match (lf, crlf) {
        (Some(a), Some(b)) => if a <= b {
            Some((a, 2))
        } else {
            Some((b, 4))
        },
        (Some(a), None) => Some((a, 2)),
        (None, Some(b)) => Some((b, 4)),
        (None, None) => None,
    }
}

/// `std::str::from_utf8`, as an owned string: `Some` exactly when the
/// bytes are valid UTF-8, holding the characters they encode.
#[verifier::external_body]
fn utf8_to_string(bytes: &[u8]) -> (r: Option<String>)
    ensures
        r is Some <==> valid_utf8(bytes@),
        r matches Some(s) ==> s@ == decode_utf8(bytes@),
{
    std::str::from_utf8(bytes).ok().map(|s| s.to_string())
}

/// A line break of an event (`\n` or `\r`).
pub open spec fn is_line_break(c: char) -> bool {
    c == '\n' || c == '\r'
}

/// `s` split at every line break (`split(['\n', '\r'])`).
pub open spec fn split_lines(s: Seq<char>) -> Seq<Seq<char>>
    decreases s.len(),
{
    if s.len() == 0 {
        seq![Seq::empty()]
    } else {
        let p = split_lines(s.drop_last());
        if is_line_break(s.last()) {
            p.push(Seq::empty())
        } else {
            p.update(p.len() - 1, p.last().push(s.last()))
        }
    }
}

/// A split has at least one piece.
proof fn lemma_split_lines_nonempty(s: Seq<char>)
    ensures
        split_lines(s).len() >= 1,
    decreases s.len(),
{
    if s.len() > 0 {
        lemma_split_lines_nonempty(s.drop_last());
    }
}

/// `s` without its leading spaces (`trim_start_matches(' ')`).
pub open spec fn strip_spaces(s: Seq<char>) -> Seq<char>
    decreases s.len(),
{
    if s.len() > 0 && s[0] == ' ' {
        strip_spaces(s.skip(1))
    } else {
        s
    }
}

/// `data:`.
pub open spec fn data_prefix() -> Seq<char> {
    seq!['d', 'a', 't', 'a', ':']
}

/// The payloads of the `data:` lines among `lines`, in order.
pub open spec fn data_payloads(lines: Seq<Seq<char>>) -> Seq<Seq<char>>
    decreases lines.len(),
{
    if lines.len() == 0 {
        Seq::empty()
    } else {
        let p = data_payloads(lines.drop_last());
        let l = lines.last();
        if l.len() >= 5 && l.take(5) == data_prefix() {
            p.push(strip_spaces(l.skip(5)))
        } else {
            p
        }
    }
}

/// The data of one event: its `data:` payloads joined with `\n`; `None`
/// when it has none or is not UTF-8.
pub open spec fn sse_data(event: Seq<u8>) -> Option<Seq<char>> {
    if !valid_utf8(event) {
        None
    } else {
        let ps = data_payloads(split_lines(decode_utf8(event)));
        if ps.len() == 0 {
            None
        } else {
            Some(join_with(ps, seq!['\n']))
        }
    }
}

/// Leading spaces of length `i` are what `strip_spaces` drops.
proof fn lemma_strip_spaces(s: Seq<char>, i: int)
    requires
        0 <= i <= s.len(),
        forall|k: int| 0 <= k < i ==> #[trigger] s[k] == ' ',
        i == s.len() || s[i] != ' ',
    ensures
        strip_spaces(s) == s.skip(i),
    decreases i,
{
    if i == 0 {
        assert(s.skip(0) =~= s);
    } else {
        assert forall|k: int| 0 <= k < i - 1 implies #[trigger] s.skip(1)[k] == ' ' by {
            assert(s.skip(1)[k] == s[k + 1]);
        }
        if i - 1 < s.len() - 1 {
            assert(s.skip(1)[i - 1] == s[i]);
        }
        lemma_strip_spaces(s.skip(1), i - 1);
        assert(s.skip(1).skip(i - 1) =~= s.skip(i));
    }
}

/// The lines of `cs`.
fn split_lines_exec(cs: &Vec<char>) -> (r: Vec<Vec<char>>)
    ensures
        r@.map_values(|v: Vec<char>| v@) == split_lines(cs@),
{
    let mut parts: Vec<Vec<char>> = Vec::new();
    let mut cur: Vec<char> = Vec::new();
    let mut i: usize = 0;
    proof {
        assert(cs@.take(0) =~= Seq::<char>::empty());
        assert(parts@.map_values(|v: Vec<char>| v@).push(cur@) =~= seq![Seq::<char>::empty()]);
    }
    while i < cs.len()
        invariant
            i <= cs@.len(),
            split_lines(cs@.take(i as int)) == parts@.map_values(|v: Vec<char>| v@).push(cur@),
        decreases cs@.len() - i,
    {
        let c = cs[i];
        proof {
            assert(cs@.take(i + 1).drop_last() =~= cs@.take(i as int));
            assert(cs@.take(i + 1).last() == c);
        }
        if c == '\n' || c == '\r' {
            let done = cur;
            parts.push(done);
            cur = Vec::new();
            proof {
                assert(parts@.map_values(|v: Vec<char>| v@).push(cur@) =~= split_lines(
                    cs@.take(i as int),
                ).push(Seq::empty()));
            }
        } else {
            cur.push(c);
            proof {
                let p = split_lines(cs@.take(i as int));
                assert(parts@.map_values(|v: Vec<char>| v@).push(cur@) =~= p.update(
                    p.len() - 1,
                    p.last().push(c),
                ));
            }
        }
        i = i + 1;
    }
    proof {
        assert(cs@.take(cs@.len() as int) =~= cs@);
    }
    parts.push(cur);
    proof {
        assert(parts@.map_values(|v: Vec<char>| v@) =~= split_lines(cs@));
    }
    parts
}

/// The payload of a `data:` line, or `None` for any other line.
fn data_payload(line: &Vec<char>) -> (r: Option<Vec<char>>)
    ensures
        match r {
            Some(p) => line@.len() >= 5 && line@.take(5) == data_prefix() && p@ == strip_spaces(
                line@.skip(5),
            ),
            None => !(line@.len() >= 5 && line@.take(5) == data_prefix()),
        },
{
    if line.len() < 5 {
        return None;
    }
    if !(line[0] == 'd' && line[1] == 'a' && line[2] == 't' && line[3] == 'a' && line[4] == ':') {
        proof {
            let t = line@.take(5);
            assert(t[0] == line@[0] && t[1] == line@[1] && t[2] == line@[2] && t[3] == line@[3]
                && t[4] == line@[4]);
        }
        return None;
    }
    proof {
        assert(line@.take(5) =~= data_prefix());
    }
    let mut i: usize = 5;
    while i < line.len() && line[i] == ' '
        invariant
            5 <= i <= line@.len(),
            forall|k: int| 5 <= k < i ==> #[trigger] line@[k] == ' ',
        decreases line@.len() - i,
    {
        i = i + 1;
    }
    let mut out: Vec<char> = Vec::new();
    let mut j = i;
    while j < line.len()
        invariant
            i <= j <= line@.len(),
            out@ == line@.subrange(i as int, j as int),
        decreases line@.len() - j,
    {
        out.push(line[j]);
        j = j + 1;
        proof {
            assert(line@.subrange(i as int, j as int) =~= line@.subrange(i as int, j - 1).push(
                line@[j - 1],
            ));
        }
    }
    proof {
        let t = line@.skip(5);
        assert forall|k: int| 0 <= k < i - 5 implies #[trigger] t[k] == ' ' by {
            assert(t[k] == line@[k + 5]);
        }
        if i < line@.len() {
            assert(t[i - 5] == line@[i as int]);
        }
        lemma_strip_spaces(t, i - 5);
        assert(t.skip(i - 5) =~= line@.subrange(i as int, line@.len() as int));
    }
    Some(out)
}

/// The data carried by one server-sent event: its `data:` lines (each
/// without the spaces after the colon) joined with `\n`; `None` when it
/// has no `data:` line (a comment or keep-alive) or is not UTF-8.
pub fn extract_sse_content(event: &[u8]) -> (r: Option<String>)
    ensures
        match r {
            Some(s) => sse_data(event@) == Some(s@),
            None => sse_data(event@) is None,
        },
{
    let text = match utf8_to_string(event) {
        Some(t) => t,
        None => return None,
    };
    let cs = to_chars(text.as_str());
    let lines = split_lines_exec(&cs);
    let ghost ls = lines@.map_values(|v: Vec<char>| v@);
    let mut data = String::new();
    let mut any = false;
    let mut i: usize = 0;
    while i < lines.len()
        invariant
            ls == lines@.map_values(|v: Vec<char>| v@),
            i <= lines@.len(),
            any <==> data_payloads(ls.take(i as int)).len() > 0,
            data@ == join_with(data_payloads(ls.take(i as int)), seq!['\n']),
        decreases lines@.len() - i,
    {
        proof {
            assert(ls.take(i + 1).drop_last() =~= ls.take(i as int));
            assert(ls.take(i + 1).last() == lines@[i as int]@);
        }
        match data_payload(&lines[i]) {
            Some(p) => {
                if any {
                    data.push('\n');
                }
                let mut k: usize = 0;
                let ghost before = data@;
                while k < p.len()
                    invariant
                        k <= p@.len(),
                        data@ == before + p@.take(k as int),
                    decreases p@.len() - k,
                {
                    data.push(p[k]);
                    k = k + 1;
                    proof {
                        assert(p@.take(k as int) =~= p@.take(k - 1).push(p@[k - 1]));
                    }
                }
                proof {
                    assert(p@.take(p@.len() as int) =~= p@);
                    let ps = data_payloads(ls.take(i as int));
                    if ps.len() == 0 {
                        assert(ps.push(p@) =~= seq![p@]);
                    } else {
                        assert(ps.push(p@).drop_last() =~= ps);
                    }
                    assert(data_payloads(ls.take(i + 1)) == ps.push(p@));
                }
                any = true;
            },
            None => {},
        }
        i = i + 1;
    }
    proof {
        assert(ls.take(ls.len() as int) =~= ls);
    }
    if any {
        Some(data)
    } else {
        None
    }
}

// ---------------------------------------------------------------------
// Talking to a running server
// ---------------------------------------------------------------------

/// Bytes of a server-sent event stream not yet split into events.
pub struct SseBuffer {
    buf: Vec<u8>,
}

impl View for SseBuffer {
    type V = Seq<u8>;

    closed spec fn view(&self) -> Seq<u8> {
        self.buf@
    }
}

impl SseBuffer {
    /// An empty buffer.
    pub fn new() -> (r: Self)
        ensures
            r@ == Seq::<u8>::empty(),
    {
        SseBuffer { buf: Vec::new() }
    }

    /// Append received bytes.
    pub fn push_bytes(&mut self, bytes: &[u8])
        ensures
            final(self)@ == old(self)@ + bytes@,
    {
        let mut i: usize = 0;
        let ghost start = self.buf@;
        while i < bytes.len()
            invariant
                i <= bytes@.len(),
                self.buf@ == start + bytes@.take(i as int),
            decreases bytes@.len() - i,
        {
            self.buf.push(bytes[i]);
            i = i + 1;
            proof {
                assert(bytes@.take(i as int) =~= bytes@.take(i - 1).push(bytes@[i - 1]));
            }
        }
        proof {
            assert(bytes@.take(bytes@.len() as int) =~= bytes@);
        }
    }

    /// Take the next complete event off the front (without its blank
    /// line); `None`, leaving the buffer as it is, when no whole event is
    /// buffered yet.
    pub fn next_event(&mut self) -> (r: Option<Vec<u8>>)
        ensures
            match event_terminator(old(self)@) {
                Some((e, n)) => r matches Some(ev) && ev@ == old(self)@.take(e) && final(self)@
                    == old(self)@.skip(e + n),
                None => r is None && final(self)@ == old(self)@,
            },
    {
        match find_event_terminator(self.buf.as_slice()) {
            None => None,
            Some((end, len)) => {
                proof {
                    lemma_event_terminator_bounds(self.buf@);
                    assert(end + len <= self.buf.len());
                }
                let ghost old_buf = self.buf@;
                let rest = self.buf.split_off(end + len);
                let mut ev = rest;
                std::mem::swap(&mut self.buf, &mut ev);
                ev.truncate(end);
                proof {
                    assert(ev@ =~= old_buf.take(end as int));
                }
                Some(ev)
            },
        }
    }
}

/// `find_bytes` finds an occurrence within the text.
proof fn lemma_find_bytes(s: Seq<u8>, pat: Seq<u8>, from: int)
    requires
        0 <= from <= s.len(),
    ensures
        find_bytes(s, pat, from) matches Some(i) ==> from <= i && i + pat.len() <= s.len(),
    decreases s.len() - from,
{
    if !bytes_at(s, pat, from) && from < s.len() {
        lemma_find_bytes(s, pat, from + 1);
    }
}

/// A found event ends within the buffer, terminator included.
proof fn lemma_event_terminator_bounds(buf: Seq<u8>)
    ensures
        event_terminator(buf) matches Some((e, n)) ==> 0 <= e && e + n <= buf.len(),
{
    lemma_find_bytes(buf, seq![10u8, 10u8], 0);
    lemma_find_bytes(buf, seq![13u8, 10u8, 13u8, 10u8], 0);
}

/// The text of `choices[0].delta.content` of a streamed chunk.
pub open spec fn delta_content_spec(chunk: Option<Json>) -> Option<Seq<char>> {
    match chunk {
        Some(v) => match json_get(v, "choices"@) {
            Some(Json::Array(a)) => if a@.len() > 0 {
                match json_get(a@[0], "delta"@) {
                    Some(d) => json_get_str(d, "content"@),
                    None => None,
                }
            } else {
                None
            },
            _ => None,
        },
        None => None,
    }
}

/// `choices[0].delta.content` of a streamed chat-completion chunk that
/// parsed to `chunk`.
pub fn delta_content(chunk: &Option<Json>) -> (r: Option<String>)
    ensures
        match r {
            Some(s) => delta_content_spec(*chunk) == Some(s@),
            None => delta_content_spec(*chunk) is None,
        },
{
    let v = match chunk {
        Some(v) => v,
        None => return None,
    };
    match json_member(v, "choices") {
        Some(Json::Array(a)) => {
            if a.len() == 0 {
                return None;
            }
            match json_member(&a[0], "delta") {
                Some(d) => json_str_member(d, "content"),
                None => None,
            }
        },
        _ => None,
    }
}

/// What one event of a streamed reply means to the printer.
#[derive(Debug, PartialEq, Eq)]
pub enum StreamPiece {
    /// The `[DONE]` marker: stop reading events.
    Done,
    /// Reply text to print.
    Text(String),
    /// Nothing to print.
    Nothing,
}

/// The meaning of an event's data: `[DONE]`, else the non-empty
/// `choices[0].delta.content` of the JSON chunk it holds.
pub fn stream_piece(data: &str) -> (r: StreamPiece)
    ensures
        data@ == "[DONE]"@ ==> r == StreamPiece::Done,
        data@ != "[DONE]"@ ==> match delta_content_spec(json_parse(data@)) {
            Some(t) => if t.len() > 0 {
                r matches StreamPiece::Text(s) && s@ == t
            } else {
                r == StreamPiece::Nothing
            },
            None => r == StreamPiece::Nothing,
        },
{
    if str_eq(data, "[DONE]") {
        return StreamPiece::Done;
    }
    let parsed = parse_json(data);
    match delta_content(&parsed) {
        Some(t) => {
            if t.as_str().unicode_len() > 0 {
                StreamPiece::Text(t)
            } else {
                StreamPiece::Nothing
            }
        },
        None => StreamPiece::Nothing,
    }
}

/// `serde_json::from_slice` for a JSON value: `None` unless the bytes are
/// UTF-8 holding valid JSON.
pub fn parse_json_bytes(bytes: &[u8]) -> (r: Option<Json>)
    ensures
        r == (if valid_utf8(bytes@) {
            json_parse(decode_utf8(bytes@))
        } else {
            None
        }),
{
    match utf8_to_string(bytes) {
        Some(t) => parse_json(t.as_str()),
        None => None,
    }
}

/// Why a prompt is not sent to a running server.
#[derive(Debug, PartialEq, Eq)]
pub enum RemoteModelError {
    /// The server reports no loaded model.
    NoModelLoaded,
    /// The server has another model loaded.
    OtherModel {
        /// The model it has.
        loaded: String,
    },
}

/// Check a server's `/healthz` reply before dispatching a prompt for
/// `requested`: it must report a loaded model whose bare name is the
/// bare name of `requested`. On success, the bare name to request.
pub fn check_remote_model(requested: &str, health: &Json) -> (r: Result<String, RemoteModelError>)
    ensures
        match json_get_str(*health, "model"@) {
            None => r == Err::<String, RemoteModelError>(RemoteModelError::NoModelLoaded),
            Some(l) => if bare_name(l) == bare_name(requested@) {
                r matches Ok(b) && b@ == bare_name(requested@)
            } else {
                r matches Err(RemoteModelError::OtherModel { loaded }) && loaded@ == l
            },
        },
{
    let loaded = match json_str_member(health, "model") {
        Some(l) => l,
        None => return Err(RemoteModelError::NoModelLoaded),
    };
    let want = bare_model_name(requested);
    let have = bare_model_name(loaded.as_str());
    if str_eq(have.as_str(), want.as_str()) {
        Ok(want)
    } else {
        Err(RemoteModelError::OtherModel { loaded })
    }
}

/// What `npurun ps` reports of a server's `/healthz` reply.
pub struct HealthSummary {
    /// Server status, `unknown` when not given.
    pub status: String,
    /// Loaded model, `(none loaded)` when not given.
    pub model: String,
    /// Uptime in seconds, 0 when not given.
    pub uptime_seconds: u64,
    /// Whether bearer-token auth is on.
    pub auth: bool,
    /// Server version, `?` when not given.
    pub version: String,
}

/// Summarise a `/healthz` reply, with a default for each missing field.
pub fn health_summary(body: &Json) -> (r: HealthSummary)
    ensures
        r.status@ == match json_get_str(*body, "status"@) {
            Some(s) => s,
            None => "unknown"@,
        },
        r.model@ == match json_get_str(*body, "model"@) {
            Some(s) => s,
            None => "(none loaded)"@,
        },
        r.uptime_seconds == match json_get_u64(*body, "uptime_seconds"@) {
            Some(n) => n,
            None => 0,
        },
        r.auth == match json_get_bool(*body, "auth"@) {
            Some(b) => b,
            None => false,
        },
        r.version@ == match json_get_str(*body, "version"@) {
            Some(s) => s,
            None => "?"@,
        },
{
    let status = match json_str_member(body, "status") {
        Some(s) => s,
        None => owned("unknown"),
    };
    let model = match json_str_member(body, "model") {
        Some(s) => s,
        None => owned("(none loaded)"),
    };
    let uptime_seconds = match json_u64_member(body, "uptime_seconds") {
        Some(n) => n,
        None => 0,
    };
    let auth = match json_bool_member(body, "auth") {
        Some(b) => b,
        None => false,
    };
    let version = match json_str_member(body, "version") {
        Some(s) => s,
        None => owned("?"),
    };
    HealthSummary { status, model, uptime_seconds, auth, version }
}

// ---------------------------------------------------------------------
// Benchmark schedule
// ---------------------------------------------------------------------

/// The queries of a benchmark, in order: each round runs every prompt
/// once; a fixed run has `max(repeats, 1)` rounds, a timed run goes on
/// until its time is up (checked before each query).
pub struct BenchSchedule {
    /// Number of prompts.
    pub prompts: usize,
    /// Rounds of a fixed run.
    pub rounds: usize,
    /// Timed (stress) run.
    pub timed: bool,
    /// Queries started so far.
    pub started: usize,
}

/// One query of a benchmark.
#[derive(Debug, PartialEq, Eq)]
pub struct BenchStep {
    /// Index of the prompt.
    pub prompt: usize,
    /// 1-based round.
    pub round: usize,
    /// 1-based query number.
    pub query: usize,
}

impl BenchSchedule {
    /// A schedule over `prompts` prompts (at least one).
    pub fn new(prompts: usize, repeats: usize, timed: bool) -> (r: Self)
        requires
            prompts >= 1,
        ensures
            r.prompts == prompts,
            r.rounds == (if repeats == 0 {
                1
            } else {
                repeats
            }),
            r.timed == timed,
            r.started == 0,
    {
        BenchSchedule {
            prompts,
            rounds: if repeats == 0 {
                1
            } else {
                repeats
            },
            timed,
            started: 0,
        }
    }

    /// Queries of a fixed run in all.
    pub open spec fn total_spec(&self) -> int {
        self.prompts * self.rounds
    }

    /// The next query, or `None` when the run is over: a fixed run after
    /// its last round, a timed run once `time_up`.
    pub fn next_step(&mut self, time_up: bool) -> (r: Option<BenchStep>)
        requires
            old(self).prompts >= 1,
            old(self).started < usize::MAX,
        ensures
            final(self).prompts == old(self).prompts,
            final(self).rounds == old(self).rounds,
            final(self).timed == old(self).timed,
            ({
                let k = old(self).started as int;
                let more = if old(self).timed {
                    !time_up
                } else {
                    k < old(self).total_spec()
                };
                if more {
                    &&& r matches Some(st)
                    &&& st.prompt == k % (old(self).prompts as int)
                    &&& st.round == k / (old(self).prompts as int) + 1
                    &&& st.query == k + 1
                    &&& final(self).started == k + 1
                } else {
                    r is None && final(self).started == k
                }
            }),
    {
        let k = self.started;
        let more = if self.timed {
            !time_up
        } else {
            k / self.prompts < self.rounds
        };
        proof {
            let p = self.prompts as int;
            let q = self.rounds as int;
            let kk = k as int;
            assert((kk / p < q) <==> (kk < p * q)) by (nonlinear_arith)
                requires
                    p >= 1,
                    kk >= 0,
            ;
        }
        if !more {
            return None;
        }
        self.started = k + 1;
        Some(BenchStep { prompt: k % self.prompts, round: k / self.prompts + 1, query: k + 1 })
    }
}

/// Where the warm summary starts: after the first run when it is skipped
/// and there is more than one run.
pub fn warm_start(skip_first: bool, runs: usize) -> (r: usize)
    ensures
        r == (if skip_first && runs > 1 {
            1usize
        } else {
            0usize
        }),
{
    if skip_first && runs > 1 {
        1
    } else {
        0
    }
}

// ---------------------------------------------------------------------
// Hardware and SDK probes
// ---------------------------------------------------------------------

/// The trimmed output of a probe, `None` when it is blank.
pub fn probe_text(out: &str) -> (r: Option<String>)
    ensures
        match r {
            Some(s) => trim(out@).len() > 0 && s@ == trim(out@),
            None => trim(out@).len() == 0,
        },
{
    let t = crate::text::trim_str(out);
    if t.as_str().unicode_len() == 0 {
        None
    } else {
        Some(t)
    }
}

/// `version:`.
pub open spec fn version_key() -> Seq<char> {
    seq!['v', 'e', 'r', 's', 'i', 'o', 'n', ':']
}

/// The value of a `version:` line: the line trimmed, without the key,
/// trimmed again.
pub open spec fn version_line_value(line: Seq<char>) -> Option<Seq<char>> {
    let t = trim(line);
    if t.len() >= 8 && t.take(8) == version_key() {
        Some(trim(t.skip(8)))
    } else {
        None
    }
}

/// The first `version:` value among `lines`.
pub open spec fn first_version(lines: Seq<Seq<char>>) -> Option<Seq<char>>
    decreases lines.len(),
{
    if lines.len() == 0 {
        None
    } else {
        match first_version(lines.drop_last()) {
            Some(v) => Some(v),
            None => version_line_value(lines.last()),
        }
    }
}

/// The SDK version an `sdk.yaml` declares: the first line that, trimmed,
/// starts with `version:`; the rest of it, trimmed.
pub fn sdk_version_from_yaml(text: &str) -> (r: Option<String>)
    ensures
        match r {
            Some(v) => first_version(split_char(text@, '\n')) == Some(v@),
            None => first_version(split_char(text@, '\n')) is None,
        },
{
    let cs = to_chars(text);
    let lines = split_at_char(&cs, '\n');
    let ghost ls = lines@.map_values(|v: Vec<char>| v@);
    let mut i: usize = 0;
    while i < lines.len()
        invariant
            ls == lines@.map_values(|v: Vec<char>| v@),
            ls == split_char(text@, '\n'),
            i <= lines@.len(),
            first_version(ls.take(i as int)) is None,
        decreases lines@.len() - i,
    {
        proof {
            assert(ls.take(i + 1).drop_last() =~= ls.take(i as int));
            assert(ls.take(i + 1).last() == lines@[i as int]@);
        }
        let (a, b) = trim_range(lines[i].as_slice());
        let t = substring(&lines[i], a, b);
        let tc = to_chars(t.as_str());
        let key: Vec<char> = vec!['v', 'e', 'r', 's', 'i', 'o', 'n', ':'];
        proof {
            assert(key@ =~= version_key());
        }
        if tc.len() >= 8 && crate::text::occurs_at_exec(&tc, &key, 0) {
            let rest = substring(&tc, 8, tc.len());
            let v = crate::text::trim_str(rest.as_str());
            proof {
                assert(tc@.subrange(0, 8) =~= tc@.take(8));
                assert(rest@ =~= tc@.skip(8));
                assert(first_version(ls.take(i + 1)) == Some(v@));
                lemma_first_version_prefix(ls, i + 1);
            }
            return Some(v);
        }
        proof {
            if tc@.len() >= 8 && tc@.take(8) == version_key() {
                assert(tc@.subrange(0, 8) =~= tc@.take(8));
            }
        }
        i = i + 1;
    }
    proof {
        assert(ls.take(ls.len() as int) =~= ls);
    }
    None
}

/// Once a prefix has a `version:` line, the whole list answers the same.
proof fn lemma_first_version_prefix(ls: Seq<Seq<char>>, k: int)
    requires
        0 <= k <= ls.len(),
        first_version(ls.take(k)) is Some,
    ensures
        first_version(ls) == first_version(ls.take(k)),
    decreases ls.len() - k,
{
    if k < ls.len() {
        assert(ls.take(k + 1).drop_last() =~= ls.take(k));
        lemma_first_version_prefix(ls, k + 1);
    } else {
        assert(ls.take(k) =~= ls);
    }
}

/// What the driver probe prints: `VERSION|DATE` (the date may be empty).
pub open spec fn driver_probe_spec(out: Seq<char>) -> Option<(Seq<char>, Option<Seq<char>>)> {
    let s = trim(out);
    match find_spec(s, seq!['|'], 0) {
        None => None,
        Some(i) => {
            let ver = trim(s.take(i));
            let date = trim(s.skip(i + 1));
            if ver.len() == 0 {
                None
            } else if date.len() == 0 {
                Some((ver, None))
            } else {
                Some((ver, Some(date)))
            }
        },
    }
}

/// The NPU driver version and date a probe printed; `None` for blank or
/// malformed output or an empty version.
pub fn parse_driver_probe(out: &str) -> (r: Option<(String, Option<String>)>)
    ensures
        match driver_probe_spec(out@) {
            None => r is None,
            Some((v, d)) => r matches Some((rv, rd)) && rv@ == v && match d {
                Some(ds) => rd matches Some(x) && x@ == ds,
                None => rd is None,
            },
        },
{
    let s = crate::text::trim_str(out);
    let sc = to_chars(s.as_str());
    let bar: Vec<char> = vec!['|'];
    proof {
        assert(bar@ =~= seq!['|']);
    }
    let i = match find_from(&sc, &bar, 0) {
        Some(i) => i,
        None => return None,
    };
    proof {
        lemma_find_spec(sc@, seq!['|'], 0);
    }
    let before = substring(&sc, 0, i);
    let after = substring(&sc, i + 1, sc.len());
    proof {
        assert(before@ =~= sc@.take(i as int));
        assert(after@ =~= sc@.skip(i + 1));
    }
    let ver = crate::text::trim_str(before.as_str());
    let date = crate::text::trim_str(after.as_str());
    if ver.as_str().unicode_len() == 0 {
        return None;
    }
    if date.as_str().unicode_len() == 0 {
        Some((ver, None))
    } else {
        Some((ver, Some(date)))
    }
}

} // verus!
