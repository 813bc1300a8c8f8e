//! JSON values as the library holds them, and their canonical text: members
//! ordered by key, no white space, members whose value is `null` left out.

use crate::bot_rooms::{
    lemma_text_less_irreflexive, lemma_text_less_transitive, less_text, text_less,
};
use crate::text::{append_str, push_char, push_chars, str_chars};
use vstd::prelude::*;

verus! {

/// A JSON value.
#[derive(Debug, PartialEq)]
pub enum JsonTree {
    Null,
    Bool(bool),
    /// A number, by its JSON text.
    Number(String),
    Str(String),
    Array(Vec<JsonTree>),
    /// The members of an object, in their order.
    Object(Vec<(String, JsonTree)>),
}

// ----- the canonical text -----

/// A character as canonical text writes it inside a string: backslash,
/// quote, line feed, carriage return and tab escaped, the rest as it is.
pub open spec fn escaped_char(c: char) -> Seq<char> {
    if c == '\\' {
        seq!['\\', '\\']
    } else if c == '"' {
        seq!['\\', '"']
    } else if c == '\n' {
        seq!['\\', 'n']
    } else if c == '\r' {
        seq!['\\', 'r']
    } else if c == '\t' {
        seq!['\\', 't']
    } else {
        seq![c]
    }
}

/// A text with each character escaped.
pub open spec fn escaped(s: Seq<char>) -> Seq<char>
    decreases s.len(),
{
    if s.len() == 0 {
        Seq::empty()
    } else {
        escaped(s.drop_last()) + escaped_char(s.last())
    }
}

/// The canonical text of a value.
pub open spec fn canonical_text(v: JsonTree) -> Seq<char>
    decreases v,
{
    match v {
        JsonTree::Null => "null"@,
        JsonTree::Bool(b) => if b {
            "true"@
        } else {
            "false"@
        },
        JsonTree::Number(n) => n@,
        JsonTree::Str(s) => seq!['"'] + escaped(s@) + seq!['"'],
        JsonTree::Array(items) => seq!['['] + items_text(items@) + seq![']'],
        JsonTree::Object(members) => seq!['{'] + members_text(
            sorted_members(member_texts(members@)),
        ) + seq!['}'],
    }
}

/// The canonical texts of values, separated by commas.
pub open spec fn items_text(items: Seq<JsonTree>) -> Seq<char>
    decreases items,
{
    if items.len() == 0 {
        Seq::empty()
    } else if items.len() == 1 {
        canonical_text(items[0])
    } else {
        items_text(items.drop_last()) + seq![','] + canonical_text(items.last())
    }
}

/// Each member's key with the canonical text of its value, the members
/// whose value is `null` left out.
pub open spec fn member_texts(members: Seq<(String, JsonTree)>) -> Seq<(Seq<char>, Seq<char>)>
    decreases members,
{
    if members.len() == 0 {
        Seq::empty()
    } else if members.last().1 is Null {
        member_texts(members.drop_last())
    } else {
        member_texts(members.drop_last()).push(
            (members.last().0@, canonical_text(members.last().1)),
        )
    }
}

/// Where a member with `key` goes in members ordered by key: after every
/// member whose key does not come after it.
pub open spec fn insert_position(sorted: Seq<(Seq<char>, Seq<char>)>, key: Seq<char>) -> int
    decreases sorted.len(),
{
    if sorted.len() == 0 || text_less(key, sorted[0].0) {
        0
    } else {
        1 + insert_position(sorted.skip(1), key)
    }
}

/// The members ordered by key, those with equal keys in their first order.
pub open spec fn sorted_members(s: Seq<(Seq<char>, Seq<char>)>) -> Seq<(Seq<char>, Seq<char>)>
    decreases s.len(),
{
    if s.len() == 0 {
        Seq::empty()
    } else {
        let rest = sorted_members(s.drop_last());
        rest.insert(insert_position(rest, s.last().0), s.last())
    }
}

/// Members ordered by key: no member's key comes before that of a member
/// ahead of it.
pub open spec fn members_ordered(s: Seq<(Seq<char>, Seq<char>)>) -> bool {
    forall|i: int, j: int| 0 <= i < j < s.len() ==> !text_less(#[trigger] s[j].0, #[trigger] s[i].0)
}

/// The place for `key` lies after every member whose key does not come after
/// `key` and before the first whose key does.
proof fn lemma_insert_position_bounds(sorted: Seq<(Seq<char>, Seq<char>)>, key: Seq<char>)
    ensures
        0 <= insert_position(sorted, key) <= sorted.len(),
        forall|k: int|
            0 <= k < insert_position(sorted, key) ==> !text_less(key, #[trigger] sorted[k].0),
        insert_position(sorted, key) < sorted.len() ==> text_less(
            key,
            sorted[insert_position(sorted, key)].0,
        ),
    decreases sorted.len(),
{
    if sorted.len() > 0 && !text_less(key, sorted[0].0) {
        let rest = sorted.skip(1);
        lemma_insert_position_bounds(rest, key);
        assert forall|k: int| 0 <= k < insert_position(sorted, key) implies !text_less(
            key,
            #[trigger] sorted[k].0,
        ) by {
            if k > 0 {
                assert(sorted[k] == rest[k - 1]);
            }
        }
        if insert_position(sorted, key) < sorted.len() {
            assert(sorted[insert_position(sorted, key)] == rest[insert_position(rest, key)]);
        }
    }
}

/// Canonical members are ordered by key and are the given members, each as
/// often as it was given.
pub proof fn lemma_sorted_members(s: Seq<(Seq<char>, Seq<char>)>)
    ensures
        members_ordered(sorted_members(s)),
        sorted_members(s).to_multiset() == s.to_multiset(),
    decreases s.len(),
{
    broadcast use vstd::seq_lib::to_multiset_insert, vstd::seq_lib::to_multiset_build;

    if s.len() == 0 {
        assert(sorted_members(s) =~= s);
    } else {
        let rest = sorted_members(s.drop_last());
        let m = s.last();
        lemma_sorted_members(s.drop_last());
        lemma_insert_position_bounds(rest, m.0);
        let p = insert_position(rest, m.0);
        let n = rest.insert(p, m);
        assert(s =~= s.drop_last().push(m));
        assert(n.to_multiset() == rest.to_multiset().insert(m));
        assert(s.drop_last().push(m).to_multiset() == s.drop_last().to_multiset().insert(m));
        assert forall|i: int, j: int| 0 <= i < j < n.len() implies !text_less(
            #[trigger] n[j].0,
            #[trigger] n[i].0,
        ) by {
            if j < p {
                assert(n[i] == rest[i] && n[j] == rest[j]);
            } else if j == p {
                assert(n[i] == rest[i]);
            } else if i == p {
                assert(n[j] == rest[j - 1]);
                if text_less(rest[j - 1].0, m.0) {
                    lemma_text_less_transitive(rest[j - 1].0, m.0, rest[p].0);
                    if p == j - 1 {
                        lemma_text_less_irreflexive(rest[p].0);
                    } else {
                        assert(!text_less(rest[j - 1].0, rest[p].0));
                    }
                }
            } else if i < p {
                assert(n[i] == rest[i] && n[j] == rest[j - 1]);
            } else {
                assert(n[i] == rest[i - 1] && n[j] == rest[j - 1]);
            }
        }
    }
}

/// The text of a member: its key quoted as it is, a colon and its value's text.
pub open spec fn member_text(m: (Seq<char>, Seq<char>)) -> Seq<char> {
    seq!['"'] + m.0 + seq!['"', ':'] + m.1
}

/// The texts of members, separated by commas.
pub open spec fn members_text(s: Seq<(Seq<char>, Seq<char>)>) -> Seq<char>
    decreases s.len(),
{
    if s.len() == 0 {
        Seq::empty()
    } else if s.len() == 1 {
        member_text(s[0])
    } else {
        members_text(s.drop_last()) + seq![','] + member_text(s.last())
    }
}

/// The texts of pairs of character lists.
pub open spec fn text_pairs(v: Seq<(Vec<char>, Vec<char>)>) -> Seq<(Seq<char>, Seq<char>)> {
    v.map_values(|p: (Vec<char>, Vec<char>)| (p.0@, p.1@))
}

/// One more value adds a comma, when there was one before, and its text.
proof fn lemma_items_text_step(items: Seq<JsonTree>, i: int)
    requires
        0 <= i < items.len(),
    ensures
        items_text(items.take(i + 1)) == items_text(items.take(i)) + (if i > 0 {
            seq![',']
        } else {
            Seq::empty()
        }) + canonical_text(items[i]),
{
    let t = items.take(i + 1);
    assert(t.drop_last() =~= items.take(i));
    assert(t.last() == items[i]);
    if i == 0 {
        assert(t[0] == items[0]);
        assert(items_text(items.take(0)) + Seq::<char>::empty() + canonical_text(items[0])
            =~= canonical_text(items[0]));
    }
}

/// One more member adds a comma, when there was one before, and its text.
proof fn lemma_members_text_step(s: Seq<(Seq<char>, Seq<char>)>, i: int)
    requires
        0 <= i < s.len(),
    ensures
        members_text(s.take(i + 1)) == members_text(s.take(i)) + (if i > 0 {
            seq![',']
        } else {
            Seq::empty()
        }) + member_text(s[i]),
{
    let t = s.take(i + 1);
    assert(t.drop_last() =~= s.take(i));
    assert(t.last() == s[i]);
    if i == 0 {
        assert(t[0] == s[0]);
        assert(members_text(s.take(0)) + Seq::<char>::empty() + member_text(s[0]) =~= member_text(
            s[0],
        ));
    }
}

/// The place `insert_position` names: after the first `p` members, none of
/// whose keys comes after `key`, before the next one, whose key does.
proof fn lemma_insert_position(sorted: Seq<(Seq<char>, Seq<char>)>, key: Seq<char>, p: int)
    requires
        0 <= p <= sorted.len(),
        forall|k: int| 0 <= k < p ==> !text_less(key, #[trigger] sorted[k].0),
        p < sorted.len() ==> text_less(key, sorted[p].0),
    ensures
        insert_position(sorted, key) == p,
    decreases p,
{
    if p > 0 {
        assert(!text_less(key, sorted[0].0));
        let rest = sorted.skip(1);
        assert forall|k: int| 0 <= k < p - 1 implies !text_less(key, #[trigger] rest[k].0) by {
            assert(rest[k] == sorted[k + 1]);
        }
        if p < sorted.len() {
            assert(rest[p - 1] == sorted[p]);
        }
        lemma_insert_position(rest, key, p - 1);
    }
}

/// Appends the escaped characters of `s`.
fn push_escaped(out: &mut String, s: &str)
    ensures
        final(out)@ == old(out)@ + escaped(s@),
{
    let v = str_chars(s);
    let ghost start = out@;
    let mut i: usize = 0;
    assert(v@.take(0) =~= Seq::<char>::empty());
    while i < v.len()
        invariant
            i <= v.len(),
            out@ == start + escaped(v@.take(i as int)),
        decreases v.len() - i,
    {
        let c = v[i];
        if c == '\\' {
            push_char(out, '\\');
            push_char(out, '\\');
        } else if c == '"' {
            push_char(out, '\\');
            push_char(out, '"');
        } else if c == '\n' {
            push_char(out, '\\');
            push_char(out, 'n');
        } else if c == '\r' {
            push_char(out, '\\');
            push_char(out, 'r');
        } else if c == '\t' {
            push_char(out, '\\');
            push_char(out, 't');
        } else {
            push_char(out, c);
        }
        assert(v@.take(i + 1).drop_last() =~= v@.take(i as int));
        assert(v@.take(i + 1).last() == c);
        assert(out@ =~= start + escaped(v@.take(i + 1)));
        i += 1;
    }
    assert(v@.take(v.len() as int) =~= s@);
}

/// The canonical text of a value: members of objects ordered by key (those
/// with equal keys in their order), no white space, strings with backslash,
/// quote, line feed, carriage return and tab escaped, numbers by their text,
/// `null` as `null`, and the members of objects whose value is `null` left
/// out.
pub fn canonical_json(v: &JsonTree) -> (s: String)
    ensures
        s@ == canonical_text(*v),
    decreases v,
{
    match v {
        JsonTree::Null => "null".to_owned(),
        JsonTree::Bool(b) => if *b {
            "true".to_owned()
        } else {
            "false".to_owned()
        },
        JsonTree::Number(n) => n.clone(),
        JsonTree::Str(text) => {
            let mut out = String::new();
            push_char(&mut out, '"');
            push_escaped(&mut out, text.as_str());
            push_char(&mut out, '"');
            out
        },
        JsonTree::Array(items) => {
            let mut out = String::new();
            push_char(&mut out, '[');
            let mut i: usize = 0;
            assert(items@.take(0) =~= Seq::<JsonTree>::empty());
            while i < items.len()
                invariant
                    i <= items.len(),
                    *v == JsonTree::Array(*items),
                    out@ == seq!['['] + items_text(items@.take(i as int)),
                decreases items.len() - i,
            {
                if i > 0 {
                    push_char(&mut out, ',');
                }
                proof {
                    vstd::std_specs::vec::axiom_vec_index_decreases(*items, i as int);
                    assert(decreases_to!(*v => v->Array_0));
                    assert(decreases_to!(*items => items@[i as int]));
                    assert(decreases_to!(*v => items@[i as int]));
                }
                let t = canonical_json(&items[i]);
                append_str(&mut out, t.as_str());
                proof {
                    lemma_items_text_step(items@, i as int);
                }
                i += 1;
            }
            push_char(&mut out, ']');
            assert(items@.take(items.len() as int) =~= items@);
            out
        },
        JsonTree::Object(members) => {
            let mut sorted: Vec<(Vec<char>, Vec<char>)> = Vec::new();
            let mut i: usize = 0;
            assert(members@.take(0) =~= Seq::<(String, JsonTree)>::empty());
            assert(text_pairs(sorted@) =~= Seq::<(Seq<char>, Seq<char>)>::empty());
            while i < members.len()
                invariant
                    i <= members.len(),
                    *v == JsonTree::Object(*members),
                    text_pairs(sorted@) == sorted_members(member_texts(members@.take(i as int))),
                decreases members.len() - i,
            {
                if let JsonTree::Null = &members[i].1 {
                    proof {
                        assert(members@.take(i + 1).drop_last() =~= members@.take(i as int));
                        assert(members@.take(i + 1).last() == members@[i as int]);
                    }
                    i += 1;
                    continue;
                }
                let key = str_chars(members[i].0.as_str());
                proof {
                    vstd::std_specs::vec::axiom_vec_index_decreases(*members, i as int);
                    assert(decreases_to!(*v => v->Object_0));
                    assert(decreases_to!(*members => members@[i as int]));
                    assert(decreases_to!(members@[i as int] => members@[i as int].1));
                    assert(decreases_to!(*v => members@[i as int].1));
                }
                let text = canonical_json(&members[i].1);
                let val = str_chars(text.as_str());
                let mut p: usize = 0;
                while p < sorted.len() && !less_text(&key, &sorted[p].0)
                    invariant
                        p <= sorted.len(),
                        forall|k: int| 0 <= k < p ==> !text_less(key@, #[trigger] sorted@[k].0@),
                    decreases sorted.len() - p,
                {
                    p += 1;
                }
                let ghost before = text_pairs(sorted@);
                proof {
                    assert forall|k: int| 0 <= k < p implies !text_less(key@, #[trigger] before[k].0) by {
                        assert(before[k].0 == sorted@[k].0@);
                    }
                    if p < sorted.len() {
                        assert(before[p as int].0 == sorted@[p as int].0@);
                    }
                    lemma_insert_position(before, key@, p as int);
                }
                sorted.insert(p, (key, val));
                proof {
                    let m = (members@[i as int].0@, canonical_text(members@[i as int].1));
                    assert(text_pairs(sorted@) =~= before.insert(p as int, m));
                    let mt = member_texts(members@.take(i + 1));
                    assert(members@.take(i + 1).drop_last() =~= members@.take(i as int));
                    assert(mt == member_texts(members@.take(i as int)).push(m));
                    assert(mt.drop_last() =~= member_texts(members@.take(i as int)));
                }
                i += 1;
            }
            assert(members@.take(members.len() as int) =~= members@);
            let ghost pairs = text_pairs(sorted@);
            let mut out = String::new();
            push_char(&mut out, '{');
            let mut j: usize = 0;
            assert(pairs.take(0) =~= Seq::<(Seq<char>, Seq<char>)>::empty());
            while j < sorted.len()
                invariant
                    j <= sorted.len(),
                    pairs == text_pairs(sorted@),
                    out@ == seq!['{'] + members_text(pairs.take(j as int)),
                decreases sorted.len() - j,
            {
                if j > 0 {
                    push_char(&mut out, ',');
                }
                push_char(&mut out, '"');
                push_chars(&mut out, &sorted[j].0, 0, sorted[j].0.len());
                push_char(&mut out, '"');
                push_char(&mut out, ':');
                push_chars(&mut out, &sorted[j].1, 0, sorted[j].1.len());
                proof {
                    assert(sorted@[j as int].0@.subrange(0, sorted@[j as int].0@.len() as int)
                        =~= pairs[j as int].0);
                    assert(sorted@[j as int].1@.subrange(0, sorted@[j as int].1@.len() as int)
                        =~= pairs[j as int].1);
                    lemma_members_text_step(pairs, j as int);
                }
                j += 1;
            }
            push_char(&mut out, '}');
            assert(pairs.take(sorted.len() as int) =~= pairs);
            out
        },
    }
}

} // verus!
