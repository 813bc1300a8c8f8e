//! QwenPaw (AgentScope based) message format.
//!
//! A tool call reads `🔧 **<name>**` followed by a fenced code block holding
//! its JSON input; a tool result reads `✅ **<name>**` followed by a fenced code
//! block holding the result text.

use super::{
    extract_first_code_block, first_code_block, header_name, parse_header, ChatMessageContent,
    ContentView, Properties,
};
use crate::json::{json_string, json_string_value, parse_json, parsed_json};
use crate::text::str_chars;
use serde_json::Value;
use vstd::prelude::*;

verus! {

/// The tool input a code block gives: its JSON value when it parses, else the
/// code as a JSON string.
pub open spec fn input_value(code: Seq<char>) -> Value {
    match parsed_json(code) {
        Some(v) => v,
        None => json_string_value(code),
    }
}

/// The single property `key: value`.
pub open spec fn single(key: Seq<char>, value: Value) -> Seq<(Seq<char>, Value)> {
    seq![(key, value)]
}

/// What QwenPaw inference makes of a body.
pub open spec fn inferred_qwenpaw(body: Seq<char>) -> Option<ContentView> {
    match header_name(body, '🔧') {
        Some(name) => Some(
            ContentView {
                properties: match first_code_block(body) {
                    Some(code) => Some(single("input"@, input_value(code))),
                    None => None,
                },
                content_type: "vachat/agent/tool_use"@,
                content: name,
            },
        ),
        None => match header_name(body, '✅') {
            Some(name) => Some(
                ContentView {
                    properties: match first_code_block(body) {
                        Some(code) => Some(single("result"@, json_string_value(code))),
                        None => None,
                    },
                    content_type: "vachat/agent/tool_result"@,
                    content: name,
                },
            ),
            None => None,
        },
    }
}

/// Properties holding one entry.
fn single_property(key: &str, value: Value) -> (p: Properties)
    ensures
        p@ == single(key@, value),
{
    let mut entries: Vec<(String, Value)> = Vec::new();
    entries.push((key.to_owned(), value));
    let p = Properties { entries };
    assert(p@ =~= single(key@, value));
    p
}

/// A `🔧 **<name>**` tool call.
fn try_tool_use(v: &Vec<char>) -> (r: Option<ChatMessageContent>)
    ensures
        match r {
            Some(o) => header_name(v@, '🔧') is Some && inferred_qwenpaw(v@) == Some(o@),
            None => header_name(v@, '🔧') is None,
        },
{
    let name = match parse_header(v, '🔧') {
        Some(n) => n,
        None => return None,
    };
    let properties = match extract_first_code_block(v) {
        Some(code) => {
            let input = match parse_json(code.as_str()) {
                Some(j) => j,
                None => json_string(code),
            };
            Some(single_property("input", input))
        },
        None => None,
    };
    Some(
        ChatMessageContent {
            properties,
            content_type: "vachat/agent/tool_use".to_owned(),
            content: name,
        },
    )
}

/// A `✅ **<name>**` tool result.
fn try_tool_result(v: &Vec<char>) -> (r: Option<ChatMessageContent>)
    ensures
        match r {
            Some(o) => header_name(v@, '✅') is Some && Some(o@) == (match header_name(
                v@,
                '✅',
            ) {
                Some(name) => Some(
                    ContentView {
                        properties: match first_code_block(v@) {
                            Some(code) => Some(single("result"@, json_string_value(code))),
                            None => None,
                        },
                        content_type: "vachat/agent/tool_result"@,
                        content: name,
                    },
                ),
                None => None,
            }),
            None => header_name(v@, '✅') is None,
        },
{
    let name = match parse_header(v, '✅') {
        Some(n) => n,
        None => return None,
    };
    let properties = match extract_first_code_block(v) {
        Some(code) => Some(single_property("result", json_string(code))),
        None => None,
    };
    Some(
        ChatMessageContent {
            properties,
            content_type: "vachat/agent/tool_result".to_owned(),
            content: name,
        },
    )
}

/// Infers a tool call or a tool result from a QwenPaw message body.
pub fn infer(body: &str) -> (r: Option<ChatMessageContent>)
    ensures
        match r {
            Some(o) => inferred_qwenpaw(body@) == Some(o@),
            None => inferred_qwenpaw(body@) is None,
        },
{
    let v = str_chars(body);
    match try_tool_use(&v) {
        Some(o) => Some(o),
        None => try_tool_result(&v),
    }
}

} // verus!
