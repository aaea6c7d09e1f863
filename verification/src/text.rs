//! Character-sequence helpers shared by the manifest, template and
//! protocol code. Every function here works on the `Seq<char>` view of
//! Rust strings.

use vstd::prelude::*;

verus! {

/// `String::push` appends one character.
pub assume_specification[ String::push ](s: &mut String, ch: char)
    ensures
        final(s)@ == old(s)@.push(ch),
;

// ---------------------------------------------------------------------
// Specifications
// ---------------------------------------------------------------------

/// `pat` occurs in `s` starting at index `i`.
pub open spec fn occurs_at(s: Seq<char>, pat: Seq<char>, i: int) -> bool {
    0 <= i && i + pat.len() <= s.len() && s.subrange(i, i + pat.len()) == pat
}

/// `pat` occurs somewhere in `s`.
pub open spec fn contains_seq(s: Seq<char>, pat: Seq<char>) -> bool {
    exists|i: int| occurs_at(s, pat, i)
}

/// `s` begins with `pat`.
pub open spec fn starts_with(s: Seq<char>, pat: Seq<char>) -> bool {
    occurs_at(s, pat, 0)
}

/// Replace every non-overlapping occurrence of `pat`, scanning left to
/// right, by `rep` (what `str::replace` computes for a non-empty pattern).
pub open spec fn replace_all(s: Seq<char>, pat: Seq<char>, rep: Seq<char>) -> Seq<char>
    decreases s.len(),
{
    if s.len() == 0 {
        Seq::empty()
    } else if pat.len() > 0 && starts_with(s, pat) {
        rep + replace_all(s.skip(pat.len() as int), pat, rep)
    } else {
        seq![s[0]] + replace_all(s.skip(1), pat, rep)
    }
}

/// Unicode `White_Space` (what `char::is_whitespace` tests).
pub open spec fn is_ws(c: char) -> bool {
    ||| ('\u{9}' <= c && c <= '\u{d}')
    ||| c == ' '
    ||| c == '\u{85}'
    ||| c == '\u{a0}'
    ||| c == '\u{1680}'
    ||| ('\u{2000}' <= c && c <= '\u{200a}')
    ||| c == '\u{2028}'
    ||| c == '\u{2029}'
    ||| c == '\u{202f}'
    ||| c == '\u{205f}'
    ||| c == '\u{3000}'
}

/// `s` without leading white space.
pub open spec fn trim_start(s: Seq<char>) -> Seq<char>
    decreases s.len(),
{
    if s.len() > 0 && is_ws(s[0]) {
        trim_start(s.skip(1))
    } else {
        s
    }
}

/// `s` without trailing white space.
pub open spec fn trim_end(s: Seq<char>) -> Seq<char>
    decreases s.len(),
{
    if s.len() > 0 && is_ws(s.last()) {
        trim_end(s.drop_last())
    } else {
        s
    }
}

/// `s` without leading and trailing white space (`str::trim`).
pub open spec fn trim(s: Seq<char>) -> Seq<char> {
    trim_end(trim_start(s))
}

/// An ASCII decimal digit.
pub open spec fn is_digit(c: char) -> bool {
    '0' <= c && c <= '9'
}

/// The value of an ASCII decimal digit.
pub open spec fn digit_value(c: char) -> nat {
    ((c as int) - ('0' as int)) as nat
}

/// Every character of `s` is an ASCII decimal digit.
pub open spec fn all_digits(s: Seq<char>) -> bool {
    forall|i: int| 0 <= i < s.len() ==> is_digit(#[trigger] s[i])
}

/// The value of a string of decimal digits (read most significant first).
pub open spec fn decimal_value(s: Seq<char>) -> nat
    decreases s.len(),
{
    if s.len() == 0 {
        0
    } else {
        decimal_value(s.drop_last()) * 10 + digit_value(s.last())
    }
}

/// What `<u32 as FromStr>::from_str` returns: an optional `+`, then one
/// or more ASCII digits whose value fits in 32 bits.
pub open spec fn parse_u32_spec(s: Seq<char>) -> Option<u32> {
    let d = if s.len() > 0 && s[0] == '+' { s.skip(1) } else { s };
    if d.len() > 0 && all_digits(d) && decimal_value(d) <= u32::MAX {
        Some(decimal_value(d) as u32)
    } else {
        None
    }
}

/// The digit character for `d < 10`.
pub open spec fn digit_char(d: nat) -> char {
    ((d + ('0' as int)) as u32) as char
}

/// Shortest decimal representation of `n` (what `Display` writes for an
/// unsigned integer).
pub open spec fn decimal(n: nat) -> Seq<char>
    decreases n,
{
    if n < 10 {
        seq![digit_char(n)]
    } else {
        decimal(n / 10).push(digit_char(n % 10))
    }
}

/// `n` written with at least two digits, left-padded with `0`.
pub open spec fn two_digits(n: nat) -> Seq<char> {
    if n < 10 {
        seq!['0', digit_char(n)]
    } else {
        decimal(n)
    }
}


/// First index at or after `from` where `pat` occurs (`str::find` on the
/// part of `s` from `from` on).
pub open spec fn find_spec(s: Seq<char>, pat: Seq<char>, from: int) -> Option<int>
    decreases s.len() - from,
{
    if from < 0 || from > s.len() {
        None
    } else if occurs_at(s, pat, from) {
        Some(from)
    } else if from == s.len() {
        None
    } else {
        find_spec(s, pat, from + 1)
    }
}

/// The texts of a sequence of strings.
pub open spec fn string_views(v: Seq<String>) -> Seq<Seq<char>> {
    v.map_values(|t: String| t@)
}

/// `c` with an ASCII capital mapped to its small letter, as a code point.
pub open spec fn ascii_lower_code(c: char) -> u32 {
    if 'A' <= c && c <= 'Z' {
        (c as u32 + 32) as u32
    } else {
        c as u32
    }
}

/// `str::eq_ignore_ascii_case`.
pub open spec fn eq_ignore_ascii_case(a: Seq<char>, b: Seq<char>) -> bool {
    a.len() == b.len() && forall|i: int|
        0 <= i < a.len() ==> ascii_lower_code(#[trigger] a[i]) == ascii_lower_code(b[i])
}

// ---------------------------------------------------------------------
// Lemmas
// ---------------------------------------------------------------------

/// Skipping `i` then one more is skipping `i + 1`.
pub proof fn lemma_skip_one(s: Seq<char>, i: int)
    requires
        0 <= i < s.len(),
    ensures
        s.skip(i).skip(1) == s.skip(i + 1),
        s.skip(i)[0] == s[i],
        s.skip(i).len() > 0,
{
    assert(s.skip(i).skip(1) =~= s.skip(i + 1));
}

/// The decimal value of a prefix never exceeds that of a longer prefix.
pub proof fn lemma_decimal_value_mono(s: Seq<char>, i: int, j: int)
    requires
        0 <= i <= j <= s.len(),
    ensures
        decimal_value(s.take(i)) <= decimal_value(s.take(j)),
    decreases j - i,
{
    if i < j {
        lemma_decimal_value_mono(s, i, j - 1);
        assert(s.take(j).drop_last() =~= s.take(j - 1));
    }
}


/// `find_spec` is the first occurrence at or after `from`.
pub proof fn lemma_find_spec(s: Seq<char>, pat: Seq<char>, from: int)
    requires
        0 <= from <= s.len(),
    ensures
        match find_spec(s, pat, from) {
            Some(i) => from <= i <= s.len() && occurs_at(s, pat, i) && forall|j: int|
                from <= j < i ==> !occurs_at(s, pat, j),
            None => forall|j: int| from <= j ==> !occurs_at(s, pat, j),
        },
    decreases s.len() - from,
{
    if !occurs_at(s, pat, from) && from < s.len() {
        lemma_find_spec(s, pat, from + 1);
    }
}

/// Leading white space of length `i` is what `trim_start` drops.
pub proof fn lemma_trim_start(s: Seq<char>, i: int)
    requires
        0 <= i <= s.len(),
        forall|k: int| 0 <= k < i ==> is_ws(#[trigger] s[k]),
        i == s.len() || !is_ws(s[i]),
    ensures
        trim_start(s) == s.skip(i),
    decreases i,
{
    if i == 0 {
        assert(s.skip(0) =~= s);
    } else {
        assert forall|k: int| 0 <= k < i - 1 implies is_ws(#[trigger] s.skip(1)[k]) by {
            assert(s.skip(1)[k] == s[k + 1]);
        }
        lemma_trim_start(s.skip(1), i - 1);
        assert(s.skip(1).skip(i - 1) =~= s.skip(i));
    }
}

/// Trailing white space from `j` on is what `trim_end` drops.
pub proof fn lemma_trim_end(s: Seq<char>, j: int)
    requires
        0 <= j <= s.len(),
        forall|k: int| j <= k < s.len() ==> is_ws(#[trigger] s[k]),
        j == 0 || !is_ws(s[j - 1]),
    ensures
        trim_end(s) == s.take(j),
    decreases s.len() - j,
{
    if j == s.len() {
        assert(s.take(j) =~= s);
    } else {
        lemma_trim_end(s.drop_last(), j);
        assert(s.drop_last().take(j) =~= s.take(j));
    }
}

// ---------------------------------------------------------------------
// Executable helpers
// ---------------------------------------------------------------------

/// The characters of `s`, in order.
pub fn to_chars(s: &str) -> (r: Vec<char>)
    ensures
        r@ == s@,
{
    let mut out: Vec<char> = Vec::new();
    for c in it: s.chars()
        invariant
            out@ == it.seq().take(it.index() as int),
            it.seq() == s@,
    {
        out.push(c);
    }
    out
}

/// A `String` holding exactly the characters `cs`.
pub fn from_chars(cs: &[char]) -> (r: String)
    ensures
        r@ == cs@,
{
    let mut out = String::new();
    let mut i: usize = 0;
    while i < cs.len()
        invariant
            i <= cs@.len(),
            out@ == cs@.take(i as int),
        decreases cs@.len() - i,
    {
        out.push(cs[i]);
        i = i + 1;
        proof {
            assert(cs@.take(i as int) =~= cs@.take((i - 1) as int).push(cs@[i - 1]));
        }
    }
    proof {
        assert(cs@.take(cs@.len() as int) =~= cs@);
    }
    out
}

/// A fresh `String` copy of `s`.
pub fn owned(s: &str) -> (r: String)
    ensures
        r@ == s@,
{
    let mut out = String::new();
    out.append(s);
    out
}

/// Append the characters `cs` to `out`.
pub fn push_chars(out: &mut String, cs: &[char])
    ensures
        final(out)@ == old(out)@ + cs@,
{
    let ghost start = out@;
    let mut i: usize = 0;
    while i < cs.len()
        invariant
            i <= cs@.len(),
            out@ == start + cs@.take(i as int),
        decreases cs@.len() - i,
    {
        out.push(cs[i]);
        i = i + 1;
        proof {
            assert(cs@.take(i as int) =~= cs@.take((i - 1) as int).push(cs@[i - 1]));
        }
    }
    proof {
        assert(cs@.take(cs@.len() as int) =~= cs@);
    }
}

/// Does `pat` occur in `s` at index `i`?
pub fn occurs_at_exec(s: &[char], pat: &[char], i: usize) -> (r: bool)
    ensures
        r == occurs_at(s@, pat@, i as int),
{
    if i > s.len() || pat.len() > s.len() - i {
        return false;
    }
    let mut k: usize = 0;
    while k < pat.len()
        invariant
            i <= s.len(),
            i + pat.len() <= s.len(),
            k <= pat@.len(),
            forall|m: int| 0 <= m < k ==> s@[i + m] == pat@[m],
        decreases pat@.len() - k,
    {
        if s[i + k] != pat[k] {
            proof {
                assert(s@.subrange(i as int, i + pat@.len())[k as int] != pat@[k as int]);
            }
            return false;
        }
        k = k + 1;
    }
    proof {
        assert(s@.subrange(i as int, i + pat@.len()) =~= pat@);
    }
    true
}

/// First index at or after `start` where `pat` occurs in `s`.
pub fn find_from(s: &[char], pat: &[char], start: usize) -> (r: Option<usize>)
    ensures
        match r {
            Some(i) => start <= i && occurs_at(s@, pat@, i as int) && forall|j: int|
                start <= j < i ==> !occurs_at(s@, pat@, j),
            None => forall|j: int| start <= j ==> !occurs_at(s@, pat@, j),
        },
        start <= s@.len() ==> match r {
            Some(i) => find_spec(s@, pat@, start as int) == Some(i as int),
            None => find_spec(s@, pat@, start as int) is None,
        },
{
    if start > s.len() {
        return None;
    }
    let mut i = start;
    while i < s.len()
        invariant
            start <= i <= s@.len(),
            forall|j: int| start <= j < i ==> !occurs_at(s@, pat@, j),
        decreases s@.len() - i,
    {
        if occurs_at_exec(s, pat, i) {
            proof {
                lemma_find_spec(s@, pat@, start as int);
            }
            return Some(i);
        }
        i = i + 1;
    }
    proof {
        lemma_find_spec(s@, pat@, start as int);
    }
    if occurs_at_exec(s, pat, i) {
        return Some(i);
    }
    None
}

/// Does `pat` occur in `s`?
pub fn str_contains(s: &str, pat: &str) -> (r: bool)
    ensures
        r == contains_seq(s@, pat@),
{
    let sc = to_chars(s);
    let pc = to_chars(pat);
    match find_from(&sc, &pc, 0) {
        Some(i) => true,
        None => {
            proof {
                assert forall|j: int| !occurs_at(s@, pat@, j) by {
                    if j >= 0 {
                        assert(!occurs_at(sc@, pc@, j));
                    }
                }
            }
            false
        },
    }
}

/// Replace every occurrence of `pat` in `s` by `rep` (`str::replace`).
pub fn replace_str(s: &str, pat: &str, rep: &str) -> (r: String)
    requires
        pat@.len() > 0,
    ensures
        r@ == replace_all(s@, pat@, rep@),
{
    let sc = to_chars(s);
    let pc = to_chars(pat);
    let mut out = String::new();
    let mut i: usize = 0;
    proof {
        assert(sc@.skip(0) =~= sc@);
    }
    while i < sc.len()
        invariant
            sc@ == s@,
            pc@ == pat@,
            pat@.len() > 0,
            i <= sc@.len(),
            replace_all(sc@, pc@, rep@) == out@ + replace_all(sc@.skip(i as int), pc@, rep@),
        decreases sc@.len() - i,
    {
        let ghost rest = sc@.skip(i as int);
        if occurs_at_exec(&sc, &pc, i) {
            proof {
                assert(rest.subrange(0, pc@.len() as int) =~= sc@.subrange(
                    i as int,
                    i + pc@.len(),
                ));
                assert(rest.skip(pc@.len() as int) =~= sc@.skip(i + pc@.len()));
            }
            out.append(rep);
            i = i + pc.len();
            proof {
                assert(out@ + replace_all(sc@.skip(i as int), pc@, rep@) =~= (out@.subrange(
                    0,
                    out@.len() - rep@.len(),
                ) + rep@) + replace_all(sc@.skip(i as int), pc@, rep@));
            }
        } else {
            proof {
                assert(!starts_with(rest, pc@)) by {
                    if starts_with(rest, pc@) {
                        assert(rest.subrange(0, pc@.len() as int) =~= sc@.subrange(
                            i as int,
                            i + pc@.len(),
                        ));
                    }
                }
                lemma_skip_one(sc@, i as int);
            }
            out.push(sc[i]);
            i = i + 1;
        }
    }
    proof {
        assert(sc@.skip(i as int) =~= Seq::<char>::empty());
    }
    out
}

/// Is `c` Unicode white space?
pub fn is_ws_exec(c: char) -> (r: bool)
    ensures
        r == is_ws(c),
{
    ('\u{9}' <= c && c <= '\u{d}') || c == ' ' || c == '\u{85}' || c == '\u{a0}' || c
        == '\u{1680}' || ('\u{2000}' <= c && c <= '\u{200a}') || c == '\u{2028}' || c
        == '\u{2029}' || c == '\u{202f}' || c == '\u{205f}' || c == '\u{3000}'
}

/// Is `c` an ASCII decimal digit?
pub fn is_digit_exec(c: char) -> (r: bool)
    ensures
        r == is_digit(c),
{
    '0' <= c && c <= '9'
}

/// `<u32 as FromStr>::from_str`, returning `None` on any error.
pub fn parse_u32(s: &[char]) -> (r: Option<u32>)
    ensures
        r == parse_u32_spec(s@),
{
    let start: usize = if s.len() > 0 && s[0] == '+' {
        1
    } else {
        0
    };
    let ghost d = if s@.len() > 0 && s@[0] == '+' {
        s@.skip(1)
    } else {
        s@
    };
    proof {
        assert(d =~= s@.skip(start as int));
    }
    if start >= s.len() {
        proof {
            assert(d.len() == 0);
        }
        return None;
    }
    let mut acc: u64 = 0;
    let mut i = start;
    while i < s.len()
        invariant
            d == s@.skip(start as int),
            d == (if s@.len() > 0 && s@[0] == '+' {
                s@.skip(1)
            } else {
                s@
            }),
            start <= i <= s@.len(),
            start < s@.len(),
            all_digits(s@.subrange(start as int, i as int)),
            acc == decimal_value(d.take(i - start)),
            acc <= u32::MAX,
        decreases s@.len() - i,
    {
        let c = s[i];
        if !is_digit_exec(c) {
            proof {
                assert(d[i - start] == c);
                assert(!all_digits(d));
            }
            return None;
        }
        proof {
            assert(d.take(i - start + 1).drop_last() =~= d.take(i - start));
            assert(d.take(i - start + 1).last() == c);
        }
        let v: u64 = (c as u64) - ('0' as u64);
        acc = acc * 10 + v;
        i = i + 1;
        proof {
            assert(s@.subrange(start as int, i as int) =~= s@.subrange(
                start as int,
                (i - 1) as int,
            ).push(c));
        }
        if acc > 4294967295u64 {
            proof {
                assert(acc == decimal_value(d.take(i - start)));
                lemma_decimal_value_mono(d, i - start, d.len() as int);
                assert(d.take(d.len() as int) =~= d);
                assert(decimal_value(d) > u32::MAX);
                assert(parse_u32_spec(s@) is None);
            }
            return None;
        }
    }
    proof {
        assert(d.take(i - start) =~= d);
        assert(s@.subrange(start as int, i as int) =~= d);
    }
    Some(acc as u32)
}

/// `Display` for `u64`.
pub fn fmt_u64(n: u64) -> (r: String)
    ensures
        r@ == decimal(n as nat),
    decreases n,
{
    let c = char_for_digit((n % 10) as u8);
    if n < 10 {
        let mut s = String::new();
        s.push(c);
        s
    } else {
        let mut s = fmt_u64(n / 10);
        s.push(c);
        s
    }
}

/// The ASCII digit for `d < 10`.
pub fn char_for_digit(d: u8) -> (c: char)
    requires
        d < 10,
    ensures
        c == digit_char(d as nat),
{
    let c = match d {
        0 => '0',
        1 => '1',
        2 => '2',
        3 => '3',
        4 => '4',
        5 => '5',
        6 => '6',
        7 => '7',
        8 => '8',
        _ => '9',
    };
    c
}

/// `n` with at least two digits (`format!("{n:02}")`).
pub fn fmt_two_digits(n: u64) -> (r: String)
    ensures
        r@ == two_digits(n as nat),
{
    if n < 10 {
        let mut s = String::new();
        s.push('0');
        s.push(char_for_digit(n as u8));
        s
    } else {
        fmt_u64(n)
    }
}

/// Bounds of `s` without leading and trailing white space.
pub fn trim_range(s: &[char]) -> (r: (usize, usize))
    ensures
        r.0 <= r.1 <= s@.len(),
        s@.subrange(r.0 as int, r.1 as int) == trim(s@),
{
    let mut i: usize = 0;
    while i < s.len() && is_ws_exec(s[i])
        invariant
            i <= s@.len(),
            forall|k: int| 0 <= k < i ==> is_ws(#[trigger] s@[k]),
        decreases s@.len() - i,
    {
        i = i + 1;
    }
    let mut j: usize = s.len();
    while j > i && is_ws_exec(s[j - 1])
        invariant
            i <= j <= s@.len(),
            forall|k: int| j <= k < s@.len() ==> is_ws(#[trigger] s@[k]),
        decreases j,
    {
        j = j - 1;
    }
    proof {
        lemma_trim_start(s@, i as int);
        let t = s@.skip(i as int);
        assert forall|k: int| j - i <= k < t.len() implies is_ws(#[trigger] t[k]) by {
            assert(t[k] == s@[k + i]);
        }
        if j > i {
            assert(t[j - i - 1] == s@[j - 1]);
        }
        lemma_trim_end(t, j - i);
        assert(t.take(j - i) =~= s@.subrange(i as int, j as int));
    }
    (i, j)
}

/// `str::trim`, as a fresh string.
pub fn trim_str(s: &str) -> (r: String)
    ensures
        r@ == trim(s@),
{
    let cs = to_chars(s);
    let (i, j) = trim_range(&cs);
    let mut out = String::new();
    let mut k = i;
    while k < j
        invariant
            i <= k <= j <= cs@.len(),
            out@ == cs@.subrange(i as int, k as int),
        decreases j - k,
    {
        out.push(cs[k]);
        k = k + 1;
        proof {
            assert(cs@.subrange(i as int, k as int) =~= cs@.subrange(i as int, k - 1).push(
                cs@[k - 1],
            ));
        }
    }
    out
}

/// Do `a` and `b` hold the same characters?
pub fn str_eq(a: &str, b: &str) -> (r: bool)
    ensures
        r == (a@ == b@),
{
    let ac = to_chars(a);
    let bc = to_chars(b);
    if ac.len() != bc.len() {
        return false;
    }
    let r = occurs_at_exec(&ac, &bc, 0);
    proof {
        assert(ac@.subrange(0, bc@.len() as int) =~= ac@);
    }
    r
}

/// The code point of `c`, with an ASCII capital lowered.
pub fn ascii_lower_code_exec(c: char) -> (r: u32)
    ensures
        r == ascii_lower_code(c),
{
    if 'A' <= c && c <= 'Z' {
        (c as u32) + 32
    } else {
        c as u32
    }
}

/// `str::eq_ignore_ascii_case` on character slices.
pub fn eq_ignore_ascii_case_exec(a: &[char], b: &[char]) -> (r: bool)
    ensures
        r == eq_ignore_ascii_case(a@, b@),
{
    if a.len() != b.len() {
        return false;
    }
    let mut i: usize = 0;
    while i < a.len()
        invariant
            a@.len() == b@.len(),
            i <= a@.len(),
            forall|k: int| 0 <= k < i ==> ascii_lower_code(#[trigger] a@[k]) == ascii_lower_code(b@[k]),
        decreases a@.len() - i,
    {
        if ascii_lower_code_exec(a[i]) != ascii_lower_code_exec(b[i]) {
            return false;
        }
        i = i + 1;
    }
    true
}

/// The characters `cs[i..j]` as a string.
pub fn substring(cs: &Vec<char>, i: usize, j: usize) -> (r: String)
    requires
        i <= j <= cs@.len(),
    ensures
        r@ == cs@.subrange(i as int, j as int),
{
    let mut out = String::new();
    let mut k = i;
    while k < j
        invariant
            i <= k <= j <= cs@.len(),
            out@ == cs@.subrange(i as int, k as int),
        decreases j - k,
    {
        out.push(cs[k]);
        k = k + 1;
        proof {
            assert(cs@.subrange(i as int, k as int) =~= cs@.subrange(i as int, k - 1).push(
                cs@[k - 1],
            ));
        }
    }
    out
}

/// `n` in decimal, left-padded with zeros to at least `w` characters.
pub open spec fn zero_padded(n: nat, w: nat) -> Seq<char> {
    let d = decimal(n);
    if d.len() >= w {
        d
    } else {
        Seq::new((w - d.len()) as nat, |_i: int| '0') + d
    }
}

/// `n` in decimal, left-padded with zeros to at least `w` characters
/// (`format!("{n:0w$}")`).
pub fn fmt_zero_padded(n: u64, w: usize) -> (r: String)
    ensures
        r@ == zero_padded(n as nat, w as nat),
{
    let d = fmt_u64(n);
    let dl = d.as_str().unicode_len();
    if dl >= w {
        return d;
    }
    let mut out = String::new();
    let mut k: usize = 0;
    while k < w - dl
        invariant
            dl < w,
            k <= w - dl,
            out@ == Seq::new(k as nat, |_i: int| '0'),
        decreases w - dl - k,
    {
        out.push('0');
        k = k + 1;
        proof {
            assert(out@ =~= Seq::new(k as nat, |_i: int| '0'));
        }
    }
    out.append(d.as_str());
    out
}

/// The lowercase hexadecimal digit for `d < 16`.
pub open spec fn hex_digit_char(d: nat) -> char {
    if d < 10 {
        digit_char(d)
    } else {
        ((d - 10 + ('a' as int)) as u32) as char
    }
}

/// Shortest lowercase hexadecimal representation of `n` (`{:x}`).
pub open spec fn hex_text(n: nat) -> Seq<char>
    decreases n,
{
    if n < 16 {
        seq![hex_digit_char(n)]
    } else {
        hex_text(n / 16).push(hex_digit_char(n % 16))
    }
}

/// The lowercase hexadecimal digit for `d < 16`.
fn hex_digit_exec(d: u8) -> (c: char)
    requires
        d < 16,
    ensures
        c == hex_digit_char(d as nat),
{
    if d < 10 {
        char_for_digit(d)
    } else {
        let c = match d {
            10 => 'a',
            11 => 'b',
            12 => 'c',
            13 => 'd',
            14 => 'e',
            _ => 'f',
        };
        c
    }
}

/// `format!("{n:x}")`.
pub fn fmt_hex(n: u128) -> (r: String)
    ensures
        r@ == hex_text(n as nat),
    decreases n,
{
    let c = hex_digit_exec((n % 16) as u8);
    if n < 16 {
        let mut s = String::new();
        s.push(c);
        s
    } else {
        let mut s = fmt_hex(n / 16);
        s.push(c);
        s
    }
}

} // verus!
