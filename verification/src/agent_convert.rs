//! Conversion of Matrix event content sent by agents into chat message content.
//!
//! Conversion has two layers. An explicit type signal (a `vachat.agent.<type>`
//! msgtype or a `vachat_content_type` field) is mapped directly; otherwise the
//! inference of the sending bot's agent type reads the body. What neither
//! recognises stays prose: `text/markdown` when the event carries a `format`,
//! else `text/plain`.

pub mod cc_connect;
pub mod hermes;
pub mod qwenpaw;

use crate::json::json_clone;
use crate::text::{
    chars_string, find_chars, find_from, has_prefix, is_prefix, push_chars, skip_until,
    skip_until_at, skip_ws, skip_ws_at, str_chars, str_equal, trim, trim_range,
};
use serde_json::Value;
use vstd::prelude::*;

verus! {

/// The `m.relates_to` object of a Matrix event: its `rel_type` and `event_id`
/// when they are strings.
#[derive(Debug, Clone, Default)]
pub struct Relation {
    pub rel_type: Option<String>,
    pub event_id: Option<String>,
}

/// A Matrix event content object, holding the fields the conversion reads:
/// each text field when present as a JSON string, the JSON fields as they are.
#[derive(Debug, Default)]
pub struct MatrixContent {
    pub body: Option<String>,
    /// Whether the event carries a `format` field.
    pub has_format: bool,
    pub msgtype: Option<String>,
    pub vachat_content_type: Option<String>,
    pub name: Option<String>,
    pub tool_use_id: Option<String>,
    pub id: Option<Value>,
    pub input: Option<Value>,
    pub result: Option<Value>,
    pub is_error: Option<Value>,
    /// `m.relates_to`, when present.
    pub relates_to: Option<Relation>,
    /// `m.new_content`, when present.
    pub new_content: Option<Box<MatrixContent>>,
}

/// The structured properties of a chat message: keys with JSON values, each key
/// at most once, in insertion order.
#[derive(Debug, Clone)]
pub struct Properties {
    pub entries: Vec<(String, Value)>,
}

/// A chat message content: its type, its main payload and its properties.
#[derive(Debug, Clone)]
pub struct ChatMessageContent {
    pub properties: Option<Properties>,
    pub content_type: String,
    pub content: String,
}

/// The mathematical value of a chat message content.
#[verifier::ext_equal]
pub struct ContentView {
    pub properties: Option<Seq<(Seq<char>, Value)>>,
    pub content_type: Seq<char>,
    pub content: Seq<char>,
}

impl View for Properties {
    type V = Seq<(Seq<char>, Value)>;

    open spec fn view(&self) -> Seq<(Seq<char>, Value)> {
        self.entries@.map_values(|e: (String, Value)| (e.0@, e.1))
    }
}

impl View for ChatMessageContent {
    type V = ContentView;

    open spec fn view(&self) -> ContentView {
        ContentView {
            properties: match self.properties {
                Some(p) => Some(p@),
                None => None,
            },
            content_type: self.content_type@,
            content: self.content@,
        }
    }
}

impl ChatMessageContent {
    /// A copy of the content.
    pub fn duplicate(&self) -> (r: ChatMessageContent)
        ensures
            r@ == self@,
    {
        ChatMessageContent {
            properties: match &self.properties {
                Some(p) => Some(p.duplicate()),
                None => None,
            },
            content_type: self.content_type.clone(),
            content: self.content.clone(),
        }
    }
}

/// The value stored under `key` in `entries`, if any (the first such entry).
pub open spec fn lookup(entries: Seq<(Seq<char>, Value)>, key: Seq<char>) -> Option<Value>
    decreases entries.len(),
{
    if entries.len() == 0 {
        None
    } else if entries[0].0 == key {
        Some(entries[0].1)
    } else {
        lookup(entries.drop_first(), key)
    }
}

impl Properties {
    /// A copy of the properties.
    pub fn duplicate(&self) -> (r: Properties)
        ensures
            r@ == self@,
    {
        let mut entries: Vec<(String, Value)> = Vec::new();
        let mut i: usize = 0;
        while i < self.entries.len()
            invariant
                i <= self.entries.len(),
                entries@ == self.entries@.take(i as int),
            decreases self.entries.len() - i,
        {
            let e = &self.entries[i];
            entries.push((e.0.clone(), json_clone(&e.1)));
            assert(entries@ =~= self.entries@.take(i + 1));
            i += 1;
        }
        assert(self.entries@.take(self.entries.len() as int) =~= self.entries@);
        Properties { entries }
    }

    /// The value stored under `key`.
    pub fn get(&self, key: &str) -> (r: Option<&Value>)
        ensures
            match r {
                Some(v) => lookup(self@, key@) == Some(*v),
                None => lookup(self@, key@) is None,
            },
    {
        let mut i: usize = 0;
        assert(self@.skip(0) =~= self@);
        while i < self.entries.len()
            invariant
                i <= self.entries.len(),
                lookup(self@, key@) == lookup(self@.skip(i as int), key@),
            decreases self.entries.len() - i,
        {
            assert(self@.skip(i as int).drop_first() =~= self@.skip(i + 1));
            if str_equal(self.entries[i].0.as_str(), key) {
                return Some(&self.entries[i].1);
            }
            i += 1;
        }
        None
    }

    /// The number of entries.
    pub fn len(&self) -> (n: usize)
        ensures
            n == self@.len(),
    {
        self.entries.len()
    }

    /// Whether there is no entry.
    pub fn is_empty(&self) -> (b: bool)
        ensures
            b == (self@.len() == 0),
    {
        self.entries.len() == 0
    }
}

/// The text of an optional string, empty when absent.
pub open spec fn text_or_empty(s: Option<String>) -> Seq<char> {
    match s {
        Some(t) => t@,
        None => Seq::empty(),
    }
}

/// The characters of an optional string.
pub open spec fn opt_text(s: Option<String>) -> Option<Seq<char>> {
    match s {
        Some(t) => Some(t@),
        None => None,
    }
}

/// The pairs of `pairs` whose value is present, in order.
pub open spec fn present_pairs(pairs: Seq<(Seq<char>, Option<Value>)>) -> Seq<(Seq<char>, Value)>
    decreases pairs.len(),
{
    if pairs.len() == 0 {
        Seq::empty()
    } else {
        let rest = present_pairs(pairs.drop_last());
        match pairs.last().1 {
            Some(v) => rest.push((pairs.last().0, v)),
            None => rest,
        }
    }
}

/// The properties made of the present pairs, `None` when there is none.
pub open spec fn collected(pairs: Seq<(Seq<char>, Option<Value>)>) -> Option<Seq<(Seq<char>, Value)>> {
    let p = present_pairs(pairs);
    if p.len() == 0 {
        None
    } else {
        Some(p)
    }
}

/// The explicit agent content type an event signals, normalised to
/// `vachat/agent/<type>`: a `vachat_content_type` field in that namespace, or
/// else a `vachat.agent.<type>` msgtype.
pub open spec fn explicit_type_of(c: MatrixContent) -> Option<Seq<char>> {
    let from_field = match c.vachat_content_type {
        Some(v) => if is_prefix("vachat/agent/"@, v@) {
            Some(v@)
        } else {
            None
        },
        None => None,
    };
    if from_field is Some {
        from_field
    } else {
        match c.msgtype {
            Some(m) => if is_prefix("vachat.agent."@, m@) {
                Some("vachat/agent/"@ + m@.skip("vachat.agent."@.len() as int))
            } else {
                None
            },
            None => None,
        }
    }
}

/// The content an explicit type signal `ty` maps `c` to.
pub open spec fn explicit_content(c: MatrixContent, ty: Seq<char>) -> ContentView {
    if ty == "vachat/agent/tool_use"@ {
        ContentView {
            properties: collected(seq![("id"@, c.id), ("input"@, c.input)]),
            content_type: ty,
            content: text_or_empty(c.name),
        }
    } else if ty == "vachat/agent/tool_result"@ {
        ContentView {
            properties: collected(seq![("result"@, c.result), ("is_error"@, c.is_error)]),
            content_type: ty,
            content: text_or_empty(c.tool_use_id),
        }
    } else {
        ContentView { properties: None, content_type: ty, content: text_or_empty(c.body) }
    }
}

/// A content with no properties.
pub open spec fn plain_view(content_type: Seq<char>, content: Seq<char>) -> ContentView {
    ContentView { properties: None, content_type, content }
}

/// The inference of an agent type applied to a body.
pub open spec fn inferred(agent_type: Option<Seq<char>>, body: Seq<char>) -> Option<ContentView> {
    match agent_type {
        Some(a) => if a == "qwenpaw"@ {
            qwenpaw::inferred_qwenpaw(body)
        } else if a == "hermes"@ {
            hermes::inferred_hermes(body)
        } else if a == "cc_connect"@ {
            cc_connect::inferred_cc_connect(body)
        } else {
            None
        },
        None => None,
    }
}

/// The conversion of event content `c` sent by a bot of agent type `agent_type`.
pub open spec fn converted(c: MatrixContent, agent_type: Option<Seq<char>>) -> ContentView {
    match explicit_type_of(c) {
        Some(ty) => explicit_content(c, ty),
        None => match inferred(agent_type, text_or_empty(c.body)) {
            Some(v) => v,
            None => if c.has_format {
                plain_view("text/markdown"@, text_or_empty(c.body))
            } else {
                plain_view("text/plain"@, text_or_empty(c.body))
            },
        },
    }
}

/// A copy of an optional JSON value.
fn clone_opt(v: &Option<Value>) -> (r: Option<Value>)
    ensures
        r == *v,
{
    match v {
        Some(x) => Some(json_clone(x)),
        None => None,
    }
}

/// The text of an optional string, empty when absent.
fn owned_text_or_empty(s: &Option<String>) -> (r: String)
    ensures
        r@ == text_or_empty(*s),
{
    match s {
        Some(t) => t.clone(),
        None => String::new(),
    }
}

/// Collects the present `(key, value)` pairs into properties, or `None` when
/// there is none.
pub fn collect_properties(pairs: &Vec<(String, Option<Value>)>) -> (r: Option<Properties>)
    ensures
        match r {
            Some(p) => collected(pairs@.map_values(|e: (String, Option<Value>)| (e.0@, e.1)))
                == Some(p@),
            None => collected(pairs@.map_values(|e: (String, Option<Value>)| (e.0@, e.1))) is None,
        },
{
    let ghost pv = pairs@.map_values(|e: (String, Option<Value>)| (e.0@, e.1));
    let mut entries: Vec<(String, Value)> = Vec::new();
    let mut i: usize = 0;
    while i < pairs.len()
        invariant
            i <= pairs.len(),
            pv == pairs@.map_values(|e: (String, Option<Value>)| (e.0@, e.1)),
            entries@.map_values(|e: (String, Value)| (e.0@, e.1)) == present_pairs(
                pv.take(i as int),
            ),
        decreases pairs.len() - i,
    {
        assert(pv.take(i + 1).drop_last() =~= pv.take(i as int));
        match &pairs[i].1 {
            Some(v) => {
                let key = pairs[i].0.clone();
                let val = json_clone(v);
                entries.push((key, val));
            },
            None => {},
        }
        i += 1;
        assert(entries@.map_values(|e: (String, Value)| (e.0@, e.1)) =~= present_pairs(
            pv.take(i as int),
        ));
    }
    assert(pv.take(pairs.len() as int) =~= pv);
    if entries.len() == 0 {
        None
    } else {
        Some(Properties { entries })
    }
}

/// Reads the explicit agent content-type signal of an event, if any.
pub fn explicit_agent_type(c: &MatrixContent) -> (r: Option<String>)
    ensures
        opt_text(r) == explicit_type_of(*c),
{
    if let Some(v) = &c.vachat_content_type {
        if has_prefix(&str_chars(v.as_str()), &str_chars("vachat/agent/")) {
            return Some(v.clone());
        }
    }
    if let Some(m) = &c.msgtype {
        let mc = str_chars(m.as_str());
        let pre = str_chars("vachat.agent.");
        if has_prefix(&mc, &pre) {
            let mut out = "vachat/agent/".to_owned();
            push_chars(&mut out, &mc, pre.len(), mc.len());
            assert(mc@.subrange(pre.len() as int, mc.len() as int) =~= m@.skip(
                "vachat.agent."@.len() as int,
            ));
            return Some(out);
        }
    }
    None
}

/// Maps an explicit agent content-type signal to a chat message content.
pub fn try_explicit(c: &MatrixContent) -> (r: Option<ChatMessageContent>)
    ensures
        match r {
            Some(out) => explicit_type_of(*c) matches Some(ty) && out@ == explicit_content(*c, ty),
            None => explicit_type_of(*c) is None,
        },
{
    let ty = match explicit_agent_type(c) {
        Some(t) => t,
        None => return None,
    };
    if str_equal(ty.as_str(), "vachat/agent/tool_use") {
        let mut pairs: Vec<(String, Option<Value>)> = Vec::new();
        pairs.push(("id".to_owned(), clone_opt(&c.id)));
        pairs.push(("input".to_owned(), clone_opt(&c.input)));
        let ghost pv = pairs@.map_values(|e: (String, Option<Value>)| (e.0@, e.1));
        assert(pv =~= seq![("id"@, c.id), ("input"@, c.input)]);
        let properties = collect_properties(&pairs);
        Some(ChatMessageContent { properties, content_type: ty, content: owned_text_or_empty(&c.name) })
    } else if str_equal(ty.as_str(), "vachat/agent/tool_result") {
        let mut pairs: Vec<(String, Option<Value>)> = Vec::new();
        pairs.push(("result".to_owned(), clone_opt(&c.result)));
        pairs.push(("is_error".to_owned(), clone_opt(&c.is_error)));
        let ghost pv = pairs@.map_values(|e: (String, Option<Value>)| (e.0@, e.1));
        assert(pv =~= seq![("result"@, c.result), ("is_error"@, c.is_error)]);
        let properties = collect_properties(&pairs);
        Some(
            ChatMessageContent {
                properties,
                content_type: ty,
                content: owned_text_or_empty(&c.tool_use_id),
            },
        )
    } else {
        Some(ChatMessageContent { properties: None, content_type: ty, content: owned_text_or_empty(&c.body) })
    }
}

/// Converts a Matrix event content object into a chat message content.
///
/// `agent_type` is the sending bot's configured agent type (such as
/// `"qwenpaw"`); it selects the inference applied when the event carries no
/// explicit type signal.
pub fn convert_agent_matrix_content(c: &MatrixContent, agent_type: Option<&str>) -> (r: ChatMessageContent)
    ensures
        r@ == converted(*c, match agent_type {
            Some(a) => Some(a@),
            None => None,
        }),
{
    if let Some(out) = try_explicit(c) {
        return out;
    }
    let body = owned_text_or_empty(&c.body);
    let inferred = match agent_type {
        Some(a) => if str_equal(a, "qwenpaw") {
            qwenpaw::infer(body.as_str())
        } else if str_equal(a, "hermes") {
            hermes::infer(body.as_str())
        } else if str_equal(a, "cc_connect") {
            cc_connect::infer(body.as_str())
        } else {
            None
        },
        None => None,
    };
    if let Some(out) = inferred {
        return out;
    }
    let content_type = if c.has_format {
        "text/markdown".to_owned()
    } else {
        "text/plain".to_owned()
    };
    ChatMessageContent { properties: None, content_type, content: body }
}

// ----- the shared grammar of the agent formats -----

/// Three backticks, the fence of a code block.
pub open spec fn fence() -> Seq<char> {
    seq!['`', '`', '`']
}

/// The trimmed inner text of the first fenced code block of `s`: a fence,
/// the rest of its line (a language tag), a newline, then everything up to
/// the next fence.
pub open spec fn first_code_block(s: Seq<char>) -> Option<Seq<char>> {
    match find_from(s, fence(), 0) {
        None => None,
        Some(p) => {
            let q = skip_until(s, p + 3, '\n');
            if q >= s.len() {
                None
            } else {
                match find_from(s, fence(), q + 1) {
                    None => None,
                    Some(r) => Some(trim(s.subrange(q + 1, r))),
                }
            }
        },
    }
}

/// The tool name of a header line `<mark> **<name>**` at the start of `s`:
/// the mark, white space, two stars, a non-empty run without stars, two stars.
/// The name is trimmed.
pub open spec fn header_name(s: Seq<char>, mark: char) -> Option<Seq<char>> {
    if s.len() == 0 || s[0] != mark {
        None
    } else {
        let a = skip_ws(s, 1);
        if !(a + 1 < s.len() && s[a] == '*' && s[a + 1] == '*') {
            None
        } else {
            let e = skip_until(s, a + 2, '*');
            if a + 2 < e && e + 1 < s.len() && s[e] == '*' && s[e + 1] == '*' {
                Some(trim(s.subrange(a + 2, e)))
            } else {
                None
            }
        }
    }
}

/// Three backticks.
pub fn fence_chars() -> (v: Vec<char>)
    ensures
        v@ == fence(),
{
    let mut v: Vec<char> = Vec::new();
    v.push('`');
    v.push('`');
    v.push('`');
    assert(v@ =~= fence());
    v
}

/// Extracts the trimmed inner text of the first fenced code block of `v`.
pub fn extract_first_code_block(v: &Vec<char>) -> (r: Option<String>)
    ensures
        opt_text(r) == first_code_block(v@),
{
    let f = fence_chars();
    let p = match find_chars(v, &f, 0) {
        Some(p) => p,
        None => return None,
    };
    proof {
        crate::text::lemma_find_from_bounds(v@, fence(), 0);
    }
    assert(p + 3 <= v.len());
    let q = skip_until_at(v, p + 3, '\n');
    if q >= v.len() {
        return None;
    }
    let r = match find_chars(v, &f, q + 1) {
        Some(r) => r,
        None => return None,
    };
    proof {
        crate::text::lemma_find_from_bounds(v@, fence(), q + 1);
    }
    let t = trim_range(v, q + 1, r);
    assert(t@.subrange(0, t@.len() as int) =~= t@);
    Some(chars_string(&t, 0, t.len()))
}

/// Reads a header line `<mark> **<name>**` at the start of `v`.
pub fn parse_header(v: &Vec<char>, mark: char) -> (r: Option<String>)
    ensures
        opt_text(r) == header_name(v@, mark),
{
    if v.len() == 0 || v[0] != mark {
        return None;
    }
    let a = skip_ws_at(v, 1);
    if !(a < v.len() && a + 1 < v.len() && v[a] == '*' && v[a + 1] == '*') {
        return None;
    }
    let e = skip_until_at(v, a + 2, '*');
    if a + 2 < e && e < v.len() && e + 1 < v.len() && v[e] == '*' && v[e + 1] == '*' {
        let t = trim_range(v, a + 2, e);
        assert(t@.subrange(0, t@.len() as int) =~= t@);
        Some(chars_string(&t, 0, t.len()))
    } else {
        None
    }
}


/// The first occurrence of a pattern from `from` on is at `k` when it occurs
/// there and no earlier position holds the pattern's first character.
proof fn lemma_find_from_at(s: Seq<char>, pat: Seq<char>, from: int, k: int)
    requires
        0 <= from <= k,
        pat.len() > 0,
        k + pat.len() <= s.len(),
        s.subrange(k, k + pat.len()) == pat,
        forall|j: int| from <= j < k ==> s[j] != pat[0],
    ensures
        find_from(s, pat, from) == Some(k),
    decreases k - from,
{
    if from < k {
        assert(s.subrange(from, from + pat.len())[0] == s[from]);
        lemma_find_from_at(s, pat, from + 1, k);
    }
}

/// Skipping to `c` from `i` stops at `k` when `k` holds `c` and nothing
/// between does.
proof fn lemma_skip_until_at(s: Seq<char>, i: int, k: int, c: char)
    requires
        0 <= i <= k < s.len(),
        s[k] == c,
        forall|j: int| i <= j < k ==> s[j] != c,
    ensures
        skip_until(s, i, c) == k,
    decreases k - i,
{
    if i < k {
        lemma_skip_until_at(s, i + 1, k, c);
    }
}

/// The code of a fenced block is what lies between the line of the opening
/// fence and the closing fence, trimmed: whatever the opening fence's line
/// holds after the fence (a language tag such as `json`) is never part of it,
/// and the text before the block does not matter.
pub proof fn lemma_code_block_skips_fence_line(t: Seq<char>, tag: Seq<char>, code: Seq<char>)
    requires
        forall|i: int| 0 <= i < t.len() ==> t[i] != '`',
        forall|i: int| 0 <= i < tag.len() ==> tag[i] != '\n',
        forall|i: int| 0 <= i < code.len() ==> code[i] != '`',
    ensures
        first_code_block(t + fence() + tag + seq!['\n'] + code + fence()) == Some(trim(code)),
{
    let s = t + fence() + tag + seq!['\n'] + code + fence();
    let p = t.len() as int;
    let q = p + 3 + tag.len();
    let r = q + 1 + code.len();
    assert(s.subrange(p, p + 3) =~= fence());
    lemma_find_from_at(s, fence(), 0, p);
    assert forall|j: int| p + 3 <= j < q implies s[j] != '\n' by {
        assert(s[j] == tag[j - p - 3]);
    }
    assert(s[q] == '\n');
    lemma_skip_until_at(s, p + 3, q, '\n');
    assert(s.subrange(r, r + 3) =~= fence());
    assert forall|j: int| q + 1 <= j < r implies s[j] != fence()[0] by {
        assert(s[j] == code[j - q - 1]);
    }
    lemma_find_from_at(s, fence(), q + 1, r);
    assert(s.subrange(q + 1, r) =~= code);
}

} // verus!
