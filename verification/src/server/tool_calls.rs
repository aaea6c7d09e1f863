//! Reading tool calls out of a model's reply: `<tool_call>{...}</tool_call>`
//! blocks, blocks tagged with the tool's own name, and a reply that is one
//! bare JSON call object.

use vstd::prelude::*;
use crate::json::{
    Json, json_get, json_get_str, json_member, json_parse, json_str_member, json_text,
    json_to_string, parse_json,
};
use crate::text::{
    eq_ignore_ascii_case, eq_ignore_ascii_case_exec, find_from, find_spec, lemma_find_spec,
    occurs_at, owned, str_eq, substring, to_chars, trim, trim_str,
};

verus! {

/// A call the model asked for: its type, the function's name and its
/// arguments as JSON text (clients parse it again).
#[derive(Debug)]
pub struct ToolCall {
    /// The call's type: always `function`.
    pub kind: &'static str,
    /// Function name.
    pub name: String,
    /// Arguments, serialised.
    pub arguments: String,
}

/// Where a call's arguments come from.
pub enum CallArgs {
    /// The body's `arguments` member, as it stands.
    Member(Json),
    /// An object with exactly these members.
    Members(Seq<(String, Json)>),
}

// ---------------------------------------------------------------------
// Specification
// ---------------------------------------------------------------------

/// The members of `es` whose key is not `key`, in order.
pub open spec fn without_key(es: Seq<(String, Json)>, key: Seq<char>) -> Seq<(String, Json)>
    decreases es.len(),
{
    if es.len() == 0 {
        es
    } else if es.last().0@ == key {
        without_key(es.drop_last(), key)
    } else {
        without_key(es.drop_last(), key).push(es.last())
    }
}

/// The arguments of a call whose body is `v`: its `arguments` member;
/// failing that, the object without its `name`; failing that, `{}`.
pub open spec fn call_args(v: Json) -> CallArgs {
    match json_get(v, "arguments"@) {
        Some(a) => CallArgs::Member(a),
        None => match v {
            Json::Object(es) => CallArgs::Members(without_key(es@, "name"@)),
            _ => CallArgs::Members(Seq::empty()),
        },
    }
}

/// The call a block tagged `tag` stands for, given what its body parsed
/// to: the body's string `name`, or else the tag itself unless the tag is
/// `tool_call` (in any ASCII case).
pub open spec fn block_call(tag: Seq<char>, parsed: Option<Json>) -> Option<(Seq<char>, CallArgs)> {
    match parsed {
        None => None,
        Some(v) => match json_get_str(v, "name"@) {
            Some(n) => Some((n, call_args(v))),
            None => if eq_ignore_ascii_case(tag, "tool_call"@) {
                None
            } else {
                Some((tag, call_args(v)))
            },
        },
    }
}

/// The call a reply stands for when, trimmed, it is one JSON object with
/// a string `name`; its `arguments` member, or `{}`.
pub open spec fn bare_call(parsed: Option<Json>) -> Option<(Seq<char>, CallArgs)> {
    match parsed {
        Some(v) => match json_get_str(v, "name"@) {
            Some(n) => Some(
                (
                    n,
                    match json_get(v, "arguments"@) {
                        Some(a) => CallArgs::Member(a),
                        None => CallArgs::Members(Seq::empty()),
                    },
                ),
            ),
            None => None,
        },
        None => None,
    }
}

/// A character that may stand in a tag name: `[A-Za-z0-9_-]`.
pub open spec fn is_tag_char(c: char) -> bool {
    ('a' <= c && c <= 'z') || ('A' <= c && c <= 'Z') || ('0' <= c && c <= '9') || c == '_' || c
        == '-'
}

/// Length of the leading run of tag-name characters.
pub open spec fn tag_name_len(s: Seq<char>) -> nat
    decreases s.len(),
{
    if s.len() > 0 && is_tag_char(s[0]) {
        1 + tag_name_len(s.skip(1))
    } else {
        0
    }
}

/// `</tag>`.
pub open spec fn closing_tag(tag: Seq<char>) -> Seq<char> {
    seq!['<', '/'] + tag + seq!['>']
}

/// One step of the scan from `cursor`: the call made by the next tagged
/// block, if any, and where the scan goes on (`None`: it stops).
pub open spec fn scan_step(s: Seq<char>, cursor: int) -> (
    Option<(Seq<char>, CallArgs)>,
    Option<int>,
) {
    match find_spec(s, seq!['<'], cursor) {
        None => (None, None),
        Some(lt) => match find_spec(s, seq!['>'], lt) {
            None => (None, None),
            Some(gt) => {
                let inner = s.subrange(lt + 1, gt);
                let tag = inner.take(tag_name_len(inner) as int);
                if tag.len() == 0 {
                    (None, Some(gt + 1))
                } else {
                    match find_spec(s, closing_tag(tag), gt + 1) {
                        None => (None, Some(gt + 1)),
                        Some(ci) => (
                            block_call(tag, json_parse(trim(s.subrange(gt + 1, ci)))),
                            Some(ci + closing_tag(tag).len()),
                        ),
                    }
                }
            },
        },
    }
}

/// A step moves the cursor forward and stays within the text.
pub proof fn lemma_scan_step_advances(s: Seq<char>, cursor: int)
    requires
        0 <= cursor < s.len(),
    ensures
        scan_step(s, cursor).1 matches Some(next) ==> cursor < next <= s.len(),
{
    lemma_find_spec(s, seq!['<'], cursor);
    if let Some(lt) = find_spec(s, seq!['<'], cursor) {
        lemma_find_spec(s, seq!['>'], lt);
        if let Some(gt) = find_spec(s, seq!['>'], lt) {
            let inner = s.subrange(lt + 1, gt);
            let tag = inner.take(tag_name_len(inner) as int);
            if tag.len() > 0 {
                lemma_find_spec(s, closing_tag(tag), gt + 1);
            }
        }
    }
}

/// The calls made by the tagged blocks from `cursor` on, in order.
pub open spec fn tagged_calls(s: Seq<char>, cursor: int) -> Seq<(Seq<char>, CallArgs)>
    decreases s.len() - cursor,
{
    if cursor < 0 || cursor >= s.len() {
        Seq::empty()
    } else {
        proof {
            lemma_scan_step_advances(s, cursor);
        }
        let (call, next) = scan_step(s, cursor);
        let rest = match next {
            Some(nx) => tagged_calls(s, nx),
            None => Seq::empty(),
        };
        match call {
            Some(c) => seq![c] + rest,
            None => rest,
        }
    }
}

/// The calls a reply makes: a bare call object if the trimmed reply is
/// one, else the tagged blocks.
pub open spec fn reply_calls(text: Seq<char>) -> Seq<(Seq<char>, CallArgs)> {
    let t = trim(text);
    let bare = if t.len() > 0 && t[0] == '{' {
        bare_call(json_parse(t))
    } else {
        None
    };
    match bare {
        Some(c) => seq![c],
        None => tagged_calls(text, 0),
    }
}

/// A reply that, trimmed, is one JSON object with a string `name` makes
/// exactly one call, of that name: with no `arguments` member its
/// arguments are the empty object, otherwise that member as it stands.
pub proof fn lemma_bare_object_is_one_call(text: Seq<char>, v: Json, n: Seq<char>)
    requires
        trim(text).len() > 0,
        trim(text)[0] == '{',
        json_parse(trim(text)) == Some(v),
        json_get_str(v, "name"@) == Some(n),
    ensures
        reply_calls(text).len() == 1,
        reply_calls(text)[0].0 == n,
        json_get(v, "arguments"@) is None ==> reply_calls(text)[0].1 == CallArgs::Members(
            Seq::empty(),
        ),
        json_get(v, "arguments"@) matches Some(a) ==> reply_calls(text)[0].1 == CallArgs::Member(
            a,
        ),
{
}

/// `t` is the JSON text of arguments `a`.
pub open spec fn args_text(t: Seq<char>, a: CallArgs) -> bool {
    match a {
        CallArgs::Member(j) => t == json_text(j),
        CallArgs::Members(ms) => exists|v: Vec<(String, Json)>|
            v@ == ms && t == #[trigger] json_text(Json::Object(v)),
    }
}

/// `c` is the call `x`: a `function` call, its name, and the text of its
/// arguments.
pub open spec fn call_is(c: ToolCall, x: (Seq<char>, CallArgs)) -> bool {
    c.kind@ == "function"@ && c.name@ == x.0 && args_text(c.arguments@, x.1)
}

/// `cs` are the calls `xs`, one for one.
pub open spec fn calls_are(cs: Seq<ToolCall>, xs: Seq<(Seq<char>, CallArgs)>) -> bool {
    cs.len() == xs.len() && forall|i: int| 0 <= i < cs.len() ==> call_is(#[trigger] cs[i], xs[i])
}

// ---------------------------------------------------------------------
// Lemmas
// ---------------------------------------------------------------------

/// A run of `i` tag characters ended by a non-tag character (or the end)
/// is the tag name.
proof fn lemma_tag_name_len(s: Seq<char>, i: int)
    requires
        0 <= i <= s.len(),
        forall|k: int| 0 <= k < i ==> is_tag_char(#[trigger] s[k]),
        i == s.len() || !is_tag_char(s[i]),
    ensures
        tag_name_len(s) == i,
    decreases i,
{
    if i > 0 {
        assert forall|k: int| 0 <= k < i - 1 implies is_tag_char(#[trigger] s.skip(1)[k]) by {
            assert(s.skip(1)[k] == s[k + 1]);
        }
        if i - 1 < s.len() - 1 {
            assert(s.skip(1)[i - 1] == s[i]);
        }
        lemma_tag_name_len(s.skip(1), i - 1);
    }
}

// ---------------------------------------------------------------------
// Executable code
// ---------------------------------------------------------------------

/// Is `c` a tag-name character?
fn is_tag_char_exec(c: char) -> (r: bool)
    ensures
        r == is_tag_char(c),
{
    ('a' <= c && c <= 'z') || ('A' <= c && c <= 'Z') || ('0' <= c && c <= '9') || c == '_' || c
        == '-'
}

/// `es` without its members named `key`.
fn without_key_exec(es: Vec<(String, Json)>, key: &str) -> (r: Vec<(String, Json)>)
    ensures
        r@ == without_key(es@, key@),
{
    let ghost orig = es@;
    let mut rest = es;
    let mut out: Vec<(String, Json)> = Vec::new();
    let ghost mut i: int = 0;
    proof {
        assert(orig.skip(0) =~= orig);
        assert(orig.take(0) =~= Seq::<(String, Json)>::empty());
    }
    while rest.len() > 0
        invariant
            0 <= i <= orig.len(),
            rest@ == orig.skip(i),
            out@ == without_key(orig.take(i), key@),
        decreases rest@.len(),
    {
        let (k, v) = rest.remove(0);
        proof {
            assert(orig.take(i + 1).drop_last() =~= orig.take(i));
            assert(orig.take(i + 1).last() == orig[i]);
            assert(rest@ =~= orig.skip(i + 1));
        }
        if !str_eq(k.as_str(), key) {
            out.push((k, v));
        }
        proof {
            i = i + 1;
        }
    }
    proof {
        assert(orig.take(i) =~= orig);
    }
    out
}

/// The text of `call_args(v)`.
fn call_args_text(v: Json) -> (r: String)
    ensures
        args_text(r@, call_args(v)),
{
    match json_member(&v, "arguments") {
        Some(a) => {
            return json_to_string(a);
        },
        None => {},
    }
    match v {
        Json::Object(es) => {
            let kept = without_key_exec(es, "name");
            let obj = Json::Object(kept);
            let r = json_to_string(&obj);
            proof {
                assert(r@ == json_text(Json::Object(kept)));
            }
            r
        },
        _ => {
            let empty: Vec<(String, Json)> = Vec::new();
            let obj = Json::Object(empty);
            let r = json_to_string(&obj);
            proof {
                assert(empty@ =~= Seq::<(String, Json)>::empty());
                assert(r@ == json_text(Json::Object(empty)));
            }
            r
        },
    }
}

/// The call made by a block tagged `tag` whose trimmed body parsed to
/// `parsed` (`None`: not JSON).
pub fn block_tool_call(tag: &str, parsed: Option<Json>) -> (r: Option<ToolCall>)
    ensures
        match r {
            Some(c) => block_call(tag@, parsed) matches Some(x) && call_is(c, x),
            None => block_call(tag@, parsed) is None,
        },
{
    let v = match parsed {
        Some(v) => v,
        None => return None,
    };
    let name = match json_str_member(&v, "name") {
        Some(n) => n,
        None => {
            let tc = to_chars(tag);
            let lit = to_chars("tool_call");
            if eq_ignore_ascii_case_exec(&tc, &lit) {
                return None;
            }
            owned(tag)
        },
    };
    let arguments = call_args_text(v);
    Some(ToolCall { kind: "function", name, arguments })
}

/// The call a reply makes when, trimmed, it parsed to `parsed` as one
/// bare JSON object.
pub fn bare_tool_call(parsed: Option<Json>) -> (r: Option<ToolCall>)
    ensures
        match r {
            Some(c) => bare_call(parsed) matches Some(x) && call_is(c, x),
            None => bare_call(parsed) is None,
        },
{
    let v = match parsed {
        Some(v) => v,
        None => return None,
    };
    let name = match json_str_member(&v, "name") {
        Some(n) => n,
        None => return None,
    };
    let arguments = match json_member(&v, "arguments") {
        Some(a) => json_to_string(a),
        None => {
            let empty: Vec<(String, Json)> = Vec::new();
            let obj = Json::Object(empty);
            let r = json_to_string(&obj);
            proof {
                assert(empty@ =~= Seq::<(String, Json)>::empty());
                assert(r@ == json_text(Json::Object(empty)));
            }
            r
        },
    };
    Some(ToolCall { kind: "function", name, arguments })
}

/// One step of the scan over `cs` from `cursor`.
fn scan_step_exec(cs: &Vec<char>, cursor: usize) -> (r: (Option<ToolCall>, Option<usize>))
    requires
        cursor < cs@.len(),
    ensures
        match r.1 {
            Some(nx) => scan_step(cs@, cursor as int).1 == Some(nx as int),
            None => scan_step(cs@, cursor as int).1 is None,
        },
        match r.0 {
            Some(c) => scan_step(cs@, cursor as int).0 matches Some(x) && call_is(c, x),
            None => scan_step(cs@, cursor as int).0 is None,
        },
{
    let s = Ghost(cs@);
    let lt_pat: Vec<char> = vec!['<'];
    let gt_pat: Vec<char> = vec!['>'];
    proof {
        assert(lt_pat@ =~= seq!['<']);
        assert(gt_pat@ =~= seq!['>']);
    }
    let lt = match find_from(cs, &lt_pat, cursor) {
        Some(i) => i,
        None => return (None, None),
    };
    let gt = match find_from(cs, &gt_pat, lt) {
        Some(i) => i,
        None => return (None, None),
    };
    proof {
        assert(cs@.subrange(lt as int, lt + 1)[0] == cs@[lt as int]);
        assert(cs@.subrange(gt as int, gt + 1)[0] == cs@[gt as int]);
        assert(cs@[lt as int] == '<');
        assert(cs@[gt as int] == '>');
        assert(gt < cs.len());
    }
    let ghost inner = cs@.subrange(lt + 1, gt as int);
    let mut k = lt + 1;
    while k < gt && is_tag_char_exec(cs[k])
        invariant
            lt < gt < cs@.len(),
            lt + 1 <= k <= gt,
            forall|m: int| lt + 1 <= m < k ==> is_tag_char(#[trigger] cs@[m]),
        decreases gt - k,
    {
        k = k + 1;
    }
    proof {
        assert forall|m: int| 0 <= m < k - lt - 1 implies is_tag_char(#[trigger] inner[m]) by {
            assert(inner[m] == cs@[m + lt + 1]);
        }
        if k < gt {
            assert(inner[k - lt - 1] == cs@[k as int]);
        }
        lemma_tag_name_len(inner, k - lt - 1);
    }
    let ghost tag = inner.take(k - lt - 1);
    if k == lt + 1 {
        return (None, Some(gt + 1));
    }
    let tag_str = substring(cs, lt + 1, k);
    proof {
        assert(tag_str@ =~= tag);
    }
    let mut close: Vec<char> = vec!['<', '/'];
    let mut m = lt + 1;
    while m < k
        invariant
            lt + 1 <= m <= k <= cs@.len(),
            close@ == seq!['<', '/'] + cs@.subrange(lt + 1, m as int),
        decreases k - m,
    {
        close.push(cs[m]);
        m = m + 1;
        proof {
            assert(cs@.subrange(lt + 1, m as int) =~= cs@.subrange(lt + 1, m - 1).push(
                cs@[m - 1],
            ));
        }
    }
    close.push('>');
    proof {
        assert(close@ =~= closing_tag(tag));
    }
    let ci = match find_from(cs, &close, gt + 1) {
        Some(i) => i,
        None => return (None, Some(gt + 1)),
    };
    proof {
        lemma_find_spec(cs@, closing_tag(tag), gt + 1);
    }
    let raw = substring(cs, gt + 1, ci);
    let body = trim_str(raw.as_str());
    let parsed = parse_json(body.as_str());
    let call = block_tool_call(tag_str.as_str(), parsed);
    (call, Some(ci + close.len()))
}

/// The calls made by the tagged blocks of `text`.
fn tagged_tool_calls(text: &str) -> (r: Vec<ToolCall>)
    ensures
        calls_are(r@, tagged_calls(text@, 0)),
{
    let cs = to_chars(text);
    let n = cs.len();
    let mut calls: Vec<ToolCall> = Vec::new();
    let mut cursor: usize = 0;
    let mut stopped = false;
    let ghost mut acc: Seq<(Seq<char>, CallArgs)> = Seq::empty();
    while !stopped && cursor < n
        invariant
            cs@ == text@,
            n == cs@.len(),
            cursor <= n,
            calls_are(calls@, acc),
            tagged_calls(text@, 0) == acc + (if stopped {
                Seq::empty()
            } else {
                tagged_calls(text@, cursor as int)
            }),
        decreases n - cursor + (if stopped { 0int } else { 1int }),
    {
        proof {
            lemma_scan_step_advances(cs@, cursor as int);
        }
        let (call, next) = scan_step_exec(&cs, cursor);
        let ghost step = scan_step(cs@, cursor as int);
        let ghost rest = match step.1 {
            Some(nx) => tagged_calls(cs@, nx),
            None => Seq::empty(),
        };
        proof {
            assert(tagged_calls(cs@, cursor as int) == match step.0 {
                Some(c) => seq![c] + rest,
                None => rest,
            });
        }
        match call {
            Some(c) => {
                proof {
                    let x = step.0->Some_0;
                    assert(calls_are(calls@.push(c), acc.push(x))) by {
                        assert forall|i: int| 0 <= i < calls@.len() + 1 implies call_is(
                            #[trigger] calls@.push(c)[i],
                            acc.push(x)[i],
                        ) by {
                            if i < calls@.len() {
                                assert(calls@.push(c)[i] == calls@[i]);
                            }
                        }
                    }
                    assert(acc + seq![x] + rest =~= acc.push(x) + rest);
                    acc = acc.push(x);
                }
                calls.push(c);
            },
            None => {},
        }
        match next {
            Some(nx) => {
                cursor = nx;
            },
            None => {
                stopped = true;
                proof {
                    assert(acc + Seq::<(Seq<char>, CallArgs)>::empty() =~= acc);
                }
            },
        }
    }
    proof {
        if !stopped {
            assert(tagged_calls(text@, cursor as int) == Seq::<(Seq<char>, CallArgs)>::empty());
        }
        assert(acc + Seq::<(Seq<char>, CallArgs)>::empty() =~= acc);
    }
    calls
}

/// The tool calls in a model reply, or `None` when it makes none. A reply
/// that, trimmed, is one JSON object with a string `name` is that call;
/// otherwise every block `<tag>body</tag>` whose trimmed body is JSON
/// makes a call, named by the body's `name` or else by the tag (the tag
/// `tool_call` must carry a `name`), in order; other blocks are skipped.
pub fn parse_tool_calls(text: &str) -> (r: Option<Vec<ToolCall>>)
    ensures
        match r {
            Some(v) => reply_calls(text@).len() > 0 && calls_are(v@, reply_calls(text@)),
            None => reply_calls(text@).len() == 0,
        },
{
    let trimmed = trim_str(text);
    let tc = to_chars(trimmed.as_str());
    if tc.len() > 0 && tc[0] == '{' {
        let parsed = parse_json(trimmed.as_str());
        match bare_tool_call(parsed) {
            Some(c) => {
                let ghost x = bare_call(json_parse(trimmed@))->Some_0;
                let mut v: Vec<ToolCall> = Vec::new();
                v.push(c);
                proof {
                    assert(reply_calls(text@) == seq![x]);
                    assert(v@[0] == c);
                }
                return Some(v);
            },
            None => {},
        }
    }
    let calls = tagged_tool_calls(text);
    if calls.len() == 0 {
        None
    } else {
        Some(calls)
    }
}

} // verus!
