//! Hermes agent message format.
//!
//! Hermes reports its activity as status lines starting with an activity mark
//! (`🔍` searching, `📄` reading) and edits them in place; an edit that falls
//! back to the whole event carries Matrix's `* ` edit marker, which is
//! stripped. Everything else stays prose.

use super::{plain_view, ChatMessageContent, ContentView};
use crate::text::{chars_string, str_chars};
use vstd::prelude::*;

verus! {

/// The body without a leading `* ` edit marker.
pub open spec fn without_edit_marker(body: Seq<char>) -> Seq<char> {
    if body.len() >= 2 && body[0] == '*' && body[1] == ' ' {
        body.skip(2)
    } else {
        body
    }
}

/// Whether a text starts with an activity mark.
pub open spec fn is_activity(s: Seq<char>) -> bool {
    s.len() > 0 && (s[0] == '🔍' || s[0] == '📄')
}

/// What Hermes inference makes of a body.
pub open spec fn inferred_hermes(body: Seq<char>) -> Option<ContentView> {
    let s = without_edit_marker(body);
    if is_activity(s) {
        Some(plain_view("vachat/agent/status"@, s))
    } else {
        None
    }
}

/// Infers a status line from a Hermes message body.
pub fn infer(body: &str) -> (r: Option<ChatMessageContent>)
    ensures
        match r {
            Some(o) => inferred_hermes(body@) == Some(o@),
            None => inferred_hermes(body@) is None,
        },
{
    let v = str_chars(body);
    let start: usize = if v.len() >= 2 && v[0] == '*' && v[1] == ' ' {
        2
    } else {
        0
    };
    assert(v@.subrange(start as int, v.len() as int) =~= without_edit_marker(body@));
    if start < v.len() && (v[start] == '🔍' || v[start] == '📄') {
        Some(
            ChatMessageContent {
                properties: None,
                content_type: "vachat/agent/status".to_owned(),
                content: chars_string(&v, start, v.len()),
            },
        )
    } else {
        None
    }
}

} // verus!
