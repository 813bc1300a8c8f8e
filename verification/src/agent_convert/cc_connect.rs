//! The cc-connect agent message format.
//!
//! Each kind of message starts with a mark: `💭 <text>` is thinking;
//! `🔧 **Tool #<n>: <name>**`, a `---` line and the input is a tool call (the
//! input is the first fenced code block after the separator, else its first
//! inline code, else its text); `🧾` with `Status: <ok|error>` and a fenced
//! code block is a tool result. Everything else stays prose.

use super::{
    collected, extract_first_code_block, first_code_block, header_name, parse_header,
    plain_view, ChatMessageContent, ContentView, Properties,
};
use crate::json::{json_bool, json_bool_value, json_string, json_string_value};
use crate::text::{
    chars_string, find_chars, find_from, skip_until, skip_until_at, skip_ws, skip_ws_at,
    str_chars, str_equal, sub_chars, trim, trim_range,
};
use super::collect_properties;
use serde_json::Value;
use vstd::prelude::*;

verus! {

/// The first index at or after `i` that does not hold a decimal digit, or `s.len()`.
pub open spec fn skip_digits(s: Seq<char>, i: int) -> int
    decreases s.len() - i,
{
    if 0 <= i < s.len() && '0' <= s[i] <= '9' {
        skip_digits(s, i + 1)
    } else {
        i
    }
}

/// The tool name of a header text: the text after `Tool #<n>:`, trimmed, when
/// it has that form; else the header text.
pub open spec fn tool_name(n: Seq<char>) -> Seq<char> {
    let t = "Tool #"@;
    if n.len() >= t.len() && n.subrange(0, t.len() as int) == t {
        let d = skip_digits(n, t.len() as int);
        if t.len() < d < n.len() && n[d] == ':' {
            trim(n.subrange(d + 1, n.len() as int))
        } else {
            n
        }
    } else {
        n
    }
}

/// The text between the first two backticks of `s`.
pub open spec fn inline_code(s: Seq<char>) -> Option<Seq<char>> {
    let i = skip_until(s, 0, '`');
    if i < s.len() {
        let j = skip_until(s, i + 1, '`');
        if j < s.len() {
            Some(s.subrange(i + 1, j))
        } else {
            None
        }
    } else {
        None
    }
}

/// What follows the line of the first `---` separator of `s`.
pub open spec fn after_separator(s: Seq<char>) -> Option<Seq<char>> {
    match find_from(s, "\n---"@, 0) {
        None => None,
        Some(i) => {
            let k = skip_until(s, i + "\n---"@.len(), '\n');
            if k < s.len() {
                Some(s.subrange(k + 1, s.len() as int))
            } else {
                Some(Seq::empty())
            }
        },
    }
}

/// The tool input of a tool call body.
pub open spec fn tool_input(s: Seq<char>) -> Option<Seq<char>> {
    match after_separator(s) {
        None => None,
        Some(rest) => match first_code_block(rest) {
            Some(c) => Some(c),
            None => match inline_code(rest) {
                Some(c) => Some(c),
                None => Some(trim(rest)),
            },
        },
    }
}

/// The word after the first `Status:` of `s`, trimmed, up to the end of its line.
pub open spec fn status_word(s: Seq<char>) -> Option<Seq<char>> {
    match find_from(s, "Status:"@, 0) {
        None => None,
        Some(i) => {
            let start = i + "Status:"@.len();
            Some(trim(s.subrange(start, skip_until(s, start, '\n'))))
        },
    }
}

/// The properties of a tool result: the code block as `result`, and
/// `is_error` set when the status is not `ok`.
pub open spec fn result_pairs(s: Seq<char>) -> Seq<(Seq<char>, Option<Value>)> {
    seq![
        ("result"@, match first_code_block(s) {
            Some(c) => Some(json_string_value(c)),
            None => None,
        }),
        ("is_error"@, match status_word(s) {
            Some(w) => Some(json_bool_value(w != "ok"@)),
            None => None,
        }),
    ]
}

/// What cc-connect inference makes of a body.
pub open spec fn inferred_cc_connect(body: Seq<char>) -> Option<ContentView> {
    if body.len() == 0 {
        None
    } else if body[0] == '💭' {
        Some(
            plain_view(
                "vachat/agent/thinking"@,
                body.subrange(skip_ws(body, 1), body.len() as int),
            ),
        )
    } else if body[0] == '🔧' {
        match header_name(body, '🔧') {
            Some(n) => Some(
                ContentView {
                    properties: match tool_input(body) {
                        Some(t) => Some(seq![("input"@, json_string_value(t))]),
                        None => None,
                    },
                    content_type: "vachat/agent/tool_use"@,
                    content: tool_name(n),
                },
            ),
            None => None,
        }
    } else if body[0] == '🧾' {
        Some(
            ContentView {
                properties: collected(result_pairs(body)),
                content_type: "vachat/agent/tool_result"@,
                content: Seq::empty(),
            },
        )
    } else {
        None
    }
}

/// Executable `skip_digits`.
fn skip_digits_at(v: &Vec<char>, i: usize) -> (j: usize)
    requires
        i <= v.len(),
    ensures
        j as int == skip_digits(v@, i as int),
        i <= j <= v.len(),
{
    let mut j = i;
    while j < v.len() && '0' <= v[j] && v[j] <= '9'
        invariant
            i <= j <= v.len(),
            skip_digits(v@, i as int) == skip_digits(v@, j as int),
        decreases v.len() - j,
    {
        j += 1;
    }
    j
}

/// The tool name of a header text.
fn parse_tool_name(n: String) -> (r: String)
    ensures
        r@ == tool_name(n@),
{
    let v = str_chars(n.as_str());
    let t = str_chars("Tool #");
    if v.len() >= t.len() && crate::text::has_prefix(&v, &t) {
        let d = skip_digits_at(&v, t.len());
        if t.len() < d && d < v.len() && v[d] == ':' {
            let r = trim_range(&v, d + 1, v.len());
            assert(r@.subrange(0, r@.len() as int) =~= r@);
            return chars_string(&r, 0, r.len());
        }
    }
    n
}

/// The text between the first two backticks of `v`.
fn find_inline_code(v: &Vec<char>) -> (r: Option<String>)
    ensures
        super::opt_text(r) == inline_code(v@),
{
    let i = skip_until_at(v, 0, '`');
    if i < v.len() {
        let j = skip_until_at(v, i + 1, '`');
        if j < v.len() {
            return Some(chars_string(v, i + 1, j));
        }
    }
    None
}

/// What follows the line of the first `---` separator of `v`.
fn find_after_separator(v: &Vec<char>) -> (r: Option<Vec<char>>)
    ensures
        match r {
            Some(rest) => after_separator(v@) == Some(rest@),
            None => after_separator(v@) is None,
        },
{
    let sep = str_chars("\n---");
    let i = match find_chars(v, &sep, 0) {
        Some(i) => i,
        None => return None,
    };
    proof {
        crate::text::lemma_find_from_bounds(v@, sep@, 0);
    }
    assert(i + sep.len() <= v.len());
    let k = skip_until_at(v, i + sep.len(), '\n');
    if k < v.len() {
        Some(sub_chars(v, k + 1, v.len()))
    } else {
        let e: Vec<char> = Vec::new();
        assert(e@ =~= Seq::<char>::empty());
        Some(e)
    }
}

/// The tool input of a tool call body.
fn find_tool_input(v: &Vec<char>) -> (r: Option<String>)
    ensures
        super::opt_text(r) == tool_input(v@),
{
    let rest = match find_after_separator(v) {
        Some(rest) => rest,
        None => return None,
    };
    if let Some(c) = extract_first_code_block(&rest) {
        return Some(c);
    }
    if let Some(c) = find_inline_code(&rest) {
        return Some(c);
    }
    let t = trim_range(&rest, 0, rest.len());
    assert(rest@.subrange(0, rest@.len() as int) =~= rest@);
    assert(t@.subrange(0, t@.len() as int) =~= t@);
    Some(chars_string(&t, 0, t.len()))
}

/// The word after the first `Status:` of `v`.
fn find_status_word(v: &Vec<char>) -> (r: Option<String>)
    ensures
        super::opt_text(r) == status_word(v@),
{
    let key = str_chars("Status:");
    let i = match find_chars(v, &key, 0) {
        Some(i) => i,
        None => return None,
    };
    proof {
        crate::text::lemma_find_from_bounds(v@, key@, 0);
    }
    assert(i + key.len() <= v.len());
    let start = i + key.len();
    let end = skip_until_at(v, start, '\n');
    let t = trim_range(v, start, end);
    assert(t@.subrange(0, t@.len() as int) =~= t@);
    Some(chars_string(&t, 0, t.len()))
}

/// Infers thinking, a tool call or a tool result from a cc-connect message body.
pub fn infer(body: &str) -> (r: Option<ChatMessageContent>)
    ensures
        match r {
            Some(o) => inferred_cc_connect(body@) == Some(o@),
            None => inferred_cc_connect(body@) is None,
        },
{
    let v = str_chars(body);
    if v.len() == 0 {
        return None;
    }
    if v[0] == '💭' {
        let s = skip_ws_at(&v, 1);
        return Some(
            ChatMessageContent {
                properties: None,
                content_type: "vachat/agent/thinking".to_owned(),
                content: chars_string(&v, s, v.len()),
            },
        );
    }
    if v[0] == '🔧' {
        let n = match parse_header(&v, '🔧') {
            Some(n) => n,
            None => return None,
        };
        let properties = match find_tool_input(&v) {
            Some(t) => {
                let mut entries: Vec<(String, Value)> = Vec::new();
                entries.push(("input".to_owned(), json_string(t)));
                let p = Properties { entries };
                assert(p@ =~= seq![("input"@, json_string_value(t@))]);
                Some(p)
            },
            None => None,
        };
        return Some(
            ChatMessageContent {
                properties,
                content_type: "vachat/agent/tool_use".to_owned(),
                content: parse_tool_name(n),
            },
        );
    }
    if v[0] == '🧾' {
        let result = match extract_first_code_block(&v) {
            Some(c) => Some(json_string(c)),
            None => None,
        };
        let is_error = match find_status_word(&v) {
            Some(w) => Some(json_bool(!str_equal(w.as_str(), "ok"))),
            None => None,
        };
        let mut pairs: Vec<(String, Option<Value>)> = Vec::new();
        pairs.push(("result".to_owned(), result));
        pairs.push(("is_error".to_owned(), is_error));
        assert(pairs@.map_values(|e: (String, Option<Value>)| (e.0@, e.1)) =~= result_pairs(v@));
        return Some(
            ChatMessageContent {
                properties: collect_properties(&pairs),
                content_type: "vachat/agent/tool_result".to_owned(),
                content: String::new(),
            },
        );
    }
    None
}

} // verus!
