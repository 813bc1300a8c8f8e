//! Lists of entries keyed by text, read as maps: the value of a key is that
//! of its last entry.

use crate::text::str_equal;
use vstd::prelude::*;

verus! {

/// What a keyed list says: each key with the value of its last entry.
pub open spec fn member_map<V>(s: Seq<(String, V)>) -> Map<Seq<char>, V>
    decreases s.len(),
{
    if s.len() == 0 {
        Map::empty()
    } else {
        member_map(s.drop_last()).insert(s.last().0@, s.last().1)
    }
}

/// The entries whose key is not `key`, in their order.
pub open spec fn without_key<V>(s: Seq<(String, V)>, key: Seq<char>) -> Seq<(String, V)>
    decreases s.len(),
{
    if s.len() == 0 {
        s
    } else if s.last().0@ == key {
        without_key(s.drop_last(), key)
    } else {
        without_key(s.drop_last(), key).push(s.last())
    }
}

/// Without the entries of `key`, the list says nothing of `key` and the same of the rest.
proof fn lemma_without_key_map<V>(s: Seq<(String, V)>, key: Seq<char>)
    ensures
        member_map(without_key(s, key)) == member_map(s).remove(key),
    decreases s.len(),
{
    if s.len() > 0 {
        lemma_without_key_map(s.drop_last(), key);
        let w = without_key(s.drop_last(), key);
        if s.last().0@ != key {
            assert(w.push(s.last()).drop_last() =~= w);
        }
        assert(member_map(without_key(s, key)) =~= member_map(s).remove(key));
    }
}

/// Removing one entry of `key` first changes nothing of the entries without `key`.
proof fn lemma_without_key_remove<V>(s: Seq<(String, V)>, key: Seq<char>, i: int)
    requires
        0 <= i < s.len(),
        s[i].0@ == key,
    ensures
        without_key(s.remove(i), key) == without_key(s, key),
    decreases s.len(),
{
    if i == s.len() - 1 {
        assert(s.remove(i) =~= s.drop_last());
    } else {
        assert(s.remove(i).drop_last() =~= s.drop_last().remove(i));
        assert(s.remove(i).last() == s.last());
        lemma_without_key_remove(s.drop_last(), key, i);
    }
}

/// A list with no entry of `key` says nothing of `key`.
proof fn lemma_member_map_absent<V>(s: Seq<(String, V)>, key: Seq<char>)
    requires
        forall|j: int| 0 <= j < s.len() ==> (#[trigger] s[j]).0@ != key,
    ensures
        !member_map(s).contains_key(key),
    decreases s.len(),
{
    if s.len() > 0 {
        assert forall|j: int| 0 <= j < s.drop_last().len() implies (#[trigger] s.drop_last()[j]).0@
            != key by {
            assert(s.drop_last()[j] == s[j]);
        }
        lemma_member_map_absent(s.drop_last(), key);
    }
}

/// The last entry of `key` gives its value.
proof fn lemma_member_map_at<V>(s: Seq<(String, V)>, key: Seq<char>, i: int)
    requires
        0 <= i < s.len(),
        s[i].0@ == key,
        forall|j: int| i < j < s.len() ==> (#[trigger] s[j]).0@ != key,
    ensures
        member_map(s).contains_key(key),
        member_map(s)[key] == s[i].1,
    decreases s.len(),
{
    if i < s.len() - 1 {
        assert forall|j: int| i < j < s.drop_last().len() implies (#[trigger] s.drop_last()[j]).0@
            != key by {
            assert(s.drop_last()[j] == s[j]);
        }
        lemma_member_map_at(s.drop_last(), key, i);
    }
}

/// The index of the last entry of `key`.
fn find_last_member<V>(members: &Vec<(String, V)>, key: &str) -> (r: Option<usize>)
    ensures
        match r {
            Some(i) => i < members.len() && members@[i as int].0@ == key@ && forall|j: int|
                i < j < members.len() ==> (#[trigger] members@[j]).0@ != key@,
            None => forall|j: int| 0 <= j < members.len() ==> (#[trigger] members@[j]).0@ != key@,
        },
{
    let mut i: usize = members.len();
    while i > 0
        invariant
            i <= members.len(),
            forall|j: int| i <= j < members.len() ==> (#[trigger] members@[j]).0@ != key@,
        decreases i,
    {
        if str_equal(members[i - 1].0.as_str(), key) {
            return Some(i - 1);
        }
        i -= 1;
    }
    None
}

/// The value a list gives `key`: that of its last entry of `key`.
pub fn lookup_member<'a, V>(members: &'a Vec<(String, V)>, key: &str) -> (r: Option<
    &'a V,
>)
    ensures
        match r {
            Some(v) => member_map(members@).contains_key(key@) && *v == member_map(members@)[key@],
            None => !member_map(members@).contains_key(key@),
        },
{
    match find_last_member(members, key) {
        Some(i) => {
            proof {
                lemma_member_map_at(members@, key@, i as int);
            }
            Some(&members[i].1)
        },
        None => {
            proof {
                lemma_member_map_absent(members@, key@);
            }
            None
        },
    }
}

/// Removes every entry of `key`.
fn remove_member<V>(members: &mut Vec<(String, V)>, key: &str)
    ensures
        final(members)@ == without_key(old(members)@, key@),
{
    let ghost orig = members@;
    let ghost mut c: int = 0;
    let mut j: usize = 0;
    assert(orig.take(0) =~= Seq::<(String, V)>::empty());
    assert(members@.take(0) =~= Seq::<(String, V)>::empty());
    while j < members.len()
        invariant
            0 <= j <= members.len(),
            0 <= c <= orig.len(),
            members@.take(j as int) == without_key(orig.take(c), key@),
            members@.skip(j as int) == orig.skip(c),
        decreases members.len() - j,
    {
        let ghost before = members@;
        assert(before.skip(j as int).len() == before.len() - j);
        assert(c < orig.len());
        assert(before[j as int] == orig[c]) by {
            assert(before.skip(j as int)[0] == before[j as int]);
            assert(orig.skip(c)[0] == orig[c]);
        }
        assert(orig.take(c + 1).drop_last() =~= orig.take(c));
        assert(orig.take(c + 1).last() == orig[c]);
        if str_equal(members[j].0.as_str(), key) {
            let _ = members.remove(j);
            assert(members@.take(j as int) =~= before.take(j as int));
            assert forall|k: int| 0 <= k < members@.skip(j as int).len() implies members@.skip(
                j as int,
            )[k] == orig.skip(c + 1)[k] by {
                assert(before.skip(j as int)[k + 1] == orig.skip(c)[k + 1]);
            }
            assert(members@.skip(j as int) =~= orig.skip(c + 1));
        } else {
            assert(members@.take(j + 1) =~= before.take(j as int).push(before[j as int]));
            assert forall|k: int| 0 <= k < members@.skip(j + 1).len() implies #[trigger] members@.skip(
                j + 1,
            )[k] == orig.skip(c + 1)[k] by {
                assert(before.skip(j as int)[k + 1] == orig.skip(c)[k + 1]);
            }
            assert(members@.skip(j + 1) =~= orig.skip(c + 1));
            j += 1;
        }
        proof {
            c = c + 1;
        }
    }
    assert(orig.skip(c).len() == 0);
    assert(orig.take(c) =~= orig);
    assert(members@.take(j as int) =~= members@);
}

/// Gives `key` the value `value`: every entry of `key` removed, then the
/// new entry added at the end.
pub fn set_member<V>(members: &mut Vec<(String, V)>, key: String, value: V)
    ensures
        member_map(final(members)@) == member_map(old(members)@).insert(key@, value),
{
    remove_member(members, key.as_str());
    let ghost w = members@;
    proof {
        lemma_without_key_map(old(members)@, key@);
    }
    members.push((key, value));
    assert(members@.drop_last() =~= w);
    assert(member_map(members@) =~= member_map(old(members)@).insert(key@, value));
}

/// Takes out the value a list gives `key`, removing every entry of `key`.
pub fn take_member<V>(members: &mut Vec<(String, V)>, key: &str) -> (r: Option<V>)
    ensures
        member_map(final(members)@) == member_map(old(members)@).remove(key@),
        r == (if member_map(old(members)@).contains_key(key@) {
            Some(member_map(old(members)@)[key@])
        } else {
            None::<V>
        }),
{
    proof {
        lemma_without_key_map(members@, key@);
    }
    match find_last_member(members, key) {
        Some(i) => {
            proof {
                lemma_member_map_at(members@, key@, i as int);
                lemma_without_key_remove(members@, key@, i as int);
            }
            let (_, v) = members.remove(i);
            remove_member(members, key);
            Some(v)
        },
        None => {
            proof {
                lemma_member_map_absent(members@, key@);
            }
            remove_member(members, key);
            None
        },
    }
}

/// Adds the entries of `more` in their order, each replacing what the list
/// had for its key.
pub fn extend_members<V>(members: &mut Vec<(String, V)>, more: Vec<(String, V)>)
    ensures
        member_map(final(members)@) == member_map(old(members)@).union_prefer_right(
            member_map(more@),
        ),
{
    let ghost base = member_map(members@);
    let ghost all = more@;
    let mut more = more;
    let ghost mut c: int = 0;
    assert(all.take(0) =~= Seq::<(String, V)>::empty());
    assert(base.union_prefer_right(member_map(all.take(0))) =~= base);
    while more.len() > 0
        invariant
            0 <= c <= all.len(),
            more@ == all.skip(c),
            member_map(members@) == base.union_prefer_right(member_map(all.take(c))),
        decreases more.len(),
    {
        assert(more@[0] == all[c]);
        let (k, v) = more.remove(0);
        assert(more@ =~= all.skip(c + 1));
        set_member(members, k, v);
        assert(all.take(c + 1).drop_last() =~= all.take(c));
        assert(all.take(c + 1).last() == all[c]);
        assert(member_map(members@) =~= base.union_prefer_right(member_map(all.take(c + 1))));
        proof {
            c = c + 1;
        }
    }
    assert(all.take(c) =~= all);
}

} // verus!
