//! What holds of JSON values.
use crate::json;
use crate::json::Tree;
use vstd::prelude::*;

verus! {

/// A member of an object is found under its key: the first with the key, and none where no member
/// has it. What is no object has no members.
pub proof fn member_is_found_under_its_key(
    entries: Seq<(Seq<char>, Tree)>,
    key: Seq<char>,
    i: int,
)
    requires
        0 <= i <= entries.len(),
        forall|j: int| 0 <= j < i ==> (#[trigger] entries[j]).0 != key,
        i < entries.len() ==> entries[i].0 == key,
    ensures
        Tree::Object(entries).get(key) == (if i < entries.len() {
            Some(entries[i].1)
        } else {
            None
        }),
    decreases entries.len(),
{
    if entries.len() > 0 && i > 0 {
        let rest = entries.skip(1);
        assert(entries[0].0 != key);
        assert forall|j: int| 0 <= j < i - 1 implies (#[trigger] rest[j]).0 != key by {
            assert(rest[j] == entries[j + 1]);
        }
        member_is_found_under_its_key(rest, key, i - 1);
    }
}

/// A member is a text just where it is one, and then it is that text as it is.
pub proof fn text_member_is_its_text(tree: Tree, key: Seq<char>, s: Seq<char>)
    ensures
        (tree.get_text(key) == Some(s)) == (tree.get(key) == Some(Tree::Text(s))),
        !(tree is Object) ==> tree.get(key) is None,
{
}

/// Each kind of value is read as what it is, and as nothing else.
pub proof fn values_are_read_as_what_they_are(
    tree: Tree,
    s: Seq<char>,
    b: bool,
    n: int,
    items: Seq<Tree>,
)
    ensures
        (tree.text() == Some(s)) == (tree == Tree::Text(s)),
        (tree.boolean() == Some(b)) == (tree == Tree::Bool(b)),
        (tree.int64() == Some(n)) == (tree == Tree::Integer(n) && i64::MIN <= n <= i64::MAX),
        (tree.items() == Some(items)) == (tree == Tree::Array(items)),
{
}

/// An object that is made of pairs has the last value that was given for each key, and no member
/// besides.
pub proof fn last_value_for_a_key_counts(
    pairs: Seq<(Seq<char>, Tree)>,
    key: Seq<char>,
    i: int,
)
    requires
        -1 <= i < pairs.len(),
        forall|j: int| i < j < pairs.len() ==> (#[trigger] pairs[j]).0 != key,
        i >= 0 ==> pairs[i].0 == key,
    ensures
        json::object(pairs).get(key) == (if i >= 0 {
            Some(pairs[i].1)
        } else {
            None
        }),
{
    if i >= 0 {
        assert forall|j: int| i < j < pairs.len() implies (#[trigger] pairs[j]).0
            != pairs[i].0 by {}
        json::member_of_object(pairs, i);
    } else {
        json::only_members_of_object(pairs, key);
    }
}

} // verus!
