//! What clients are told of a response.
use crate::gateway::answer;
use crate::json;
use crate::json::Tree;
use crate::laws::texts;
use crate::laws::walk;
use crate::text;
use vstd::prelude::*;

verus! {

/// What the assistant says in a chat completion, where it has one choice.
pub open spec fn said(completion: Tree) -> Option<Seq<char>> {
    match completion.get("choices"@) {
        Some(Tree::Array(choices)) => if choices.len() == 1 {
            match choices[0].get("message"@) {
                Some(message) => message.get_text("content"@),
                None => None,
            }
        } else {
            None
        },
        _ => None,
    }
}

/// Whether `part` stands in `whole` without a gap.
pub open spec fn is_part_of(part: Seq<char>, whole: Seq<char>) -> bool {
    exists|before: Seq<char>, after: Seq<char>| whole == #[trigger] (before + part + after)
}

/// Whether an object holds the text `s` itself.
pub open spec fn speaks(node: Tree, s: Seq<char>) -> bool {
    &&& node.get_text("type"@) == Some("output_text"@) || node.get_text("type"@) == Some("text"@)
    &&& node.get_text("text"@) == Some(s)
}

/// The part of a response in which its text stands: its output, or all of it where it has none.
pub open spec fn speaking_part(response: Tree) -> Tree {
    match response.get("output"@) {
        Some(output) => output,
        None => response,
    }
}

/// A chat completion says the text that a response gives as such, where it gives one.
pub proof fn given_text_is_said(response: Tree, id: Seq<char>, now: int, s: Seq<char>)
    requires
        response.get_text("output_text"@) == Some(s),
    ensures
        said(answer::chat_completion(response, id, now)) == Some(s),
{
    answer::chat_completion_says_the_text(response, id, now);
}

/// What is part of a part is part of the whole.
proof fn lemma_part_of_part(a: Seq<char>, b: Seq<char>, left: Seq<char>, right: Seq<char>)
    requires
        is_part_of(a, b),
    ensures
        is_part_of(a, left + b + right),
{
    let (before, after) = choose|before: Seq<char>, after: Seq<char>|
        b == #[trigger] (before + a + after);
    assert(left + b + right == (left + before) + a + (after + right));
}

/// The text of an item is part of that of the items.
proof fn lemma_item_text(items: Seq<Tree>, i: int, s: Seq<char>)
    requires
        0 <= i < items.len(),
        is_part_of(s, answer::text_in(items[i])),
    ensures
        is_part_of(s, answer::text_in_items(items)),
    decreases items.len(),
{
    let before = answer::text_in_items(items.drop_last());
    let last = answer::text_in(items.last());
    if i < items.len() - 1 {
        lemma_item_text(items.drop_last(), i, s);
        lemma_part_of_part(s, before, Seq::empty(), last);
        assert(Seq::<char>::empty() + before + last == before + last);
    } else {
        lemma_part_of_part(s, last, before, Seq::empty());
        assert(before + last + Seq::<char>::empty() == before + last);
    }
}

/// The text of a member is part of that of the members.
proof fn lemma_entry_text(entries: Seq<(Seq<char>, Tree)>, i: int, s: Seq<char>)
    requires
        0 <= i < entries.len(),
        is_part_of(s, answer::text_in(entries[i].1)),
    ensures
        is_part_of(s, answer::text_in_entries(entries)),
    decreases entries.len(),
{
    let before = answer::text_in_entries(entries.drop_last());
    let last = answer::text_in(entries.last().1);
    if i < entries.len() - 1 {
        lemma_entry_text(entries.drop_last(), i, s);
        lemma_part_of_part(s, before, Seq::empty(), last);
        assert(Seq::<char>::empty() + before + last == before + last);
    } else {
        lemma_part_of_part(s, last, before, Seq::empty());
        assert(before + last + Seq::<char>::empty() == before + last);
    }
}

/// The text of an object anywhere in a value is part of its text.
proof fn lemma_text_at(root: Tree, path: Seq<int>, node: Tree, s: Seq<char>)
    requires
        walk::stands_at(root, path, node),
        speaks(node, s),
    ensures
        is_part_of(s, answer::text_in(root)),
    decreases path.len(),
{
    match root {
        Tree::Object(entries) => {
            let own = answer::own_text(root);
            let inner = answer::text_in_entries(entries);
            if path.len() == 0 {
                assert(own == s);
                assert(Seq::<char>::empty() + s + inner == own + inner);
            } else {
                lemma_text_at(entries[path[0]].1, path.skip(1), node, s);
                lemma_entry_text(entries, path[0], s);
                lemma_part_of_part(s, inner, own, Seq::empty());
                assert(own + inner + Seq::<char>::empty() == own + inner);
            }
        },
        Tree::Array(items) => {
            if path.len() > 0 {
                lemma_text_at(items[path[0]], path.skip(1), node, s);
                lemma_item_text(items, path[0], s);
            }
        },
        _ => {},
    }
}

/// Every text anywhere in the output of a response is said, whole, wherever it stands there.
pub proof fn every_text_is_said(
    response: Tree,
    id: Seq<char>,
    now: int,
    path: Seq<int>,
    node: Tree,
    s: Seq<char>,
)
    requires
        response.get_text("output_text"@) is None,
        walk::stands_at(speaking_part(response), path, node),
        speaks(node, s),
    ensures
        said(answer::chat_completion(response, id, now)) matches Some(content) && is_part_of(
            s,
            content,
        ),
{
    answer::chat_completion_says_the_text(response, id, now);
    lemma_text_at(speaking_part(response), path, node, s);
}

/// The text of two lists, one after the other, is that of the one and then that of the other.
proof fn lemma_text_of_lists(a: Seq<Tree>, b: Seq<Tree>)
    ensures
        answer::text_in_items(a + b) == answer::text_in_items(a) + answer::text_in_items(b),
    decreases b.len(),
{
    if b.len() == 0 {
        assert(a + b == a);
        assert(answer::text_in_items(a) + Seq::<char>::empty() == answer::text_in_items(a));
    } else {
        lemma_text_of_lists(a, b.drop_last());
        assert((a + b).drop_last() == a + b.drop_last());
        assert((a + b).last() == b.last());
        assert(answer::text_in_items(a) + (answer::text_in_items(b.drop_last()) + answer::text_in(
            b.last(),
        )) == (answer::text_in_items(a) + answer::text_in_items(b.drop_last()))
            + answer::text_in(b.last()));
    }
}

/// The text of members is that of their values, one after another.
proof fn lemma_text_of_values(entries: Seq<(Seq<char>, Tree)>)
    ensures
        answer::text_in_entries(entries) == answer::text_in_items(walk::values(entries)),
    decreases entries.len(),
{
    if entries.len() > 0 {
        lemma_text_of_values(entries.drop_last());
        assert(walk::values(entries).drop_last() == walk::values(entries.drop_last()));
        assert(walk::values(entries).last() == entries.last().1);
    }
}

/// The items of an output are said in their order: what is said of a list is what is said of its
/// start and then what is said of the rest.
pub proof fn items_are_said_in_order(
    whole: Tree,
    start: Tree,
    rest: Tree,
    a: Seq<Tree>,
    b: Seq<Tree>,
    id: Seq<char>,
    now: int,
)
    requires
        whole.get_text("output_text"@) is None,
        start.get_text("output_text"@) is None,
        rest.get_text("output_text"@) is None,
        whole.get("output"@) == Some(Tree::Array(a + b)),
        start.get("output"@) == Some(Tree::Array(a)),
        rest.get("output"@) == Some(Tree::Array(b)),
    ensures
        ({
            &&& said(answer::chat_completion(start, id, now)) matches Some(first)
            &&& said(answer::chat_completion(rest, id, now)) matches Some(second)
            &&& said(answer::chat_completion(whole, id, now)) == Some(first + second)
        }),
{
    answer::chat_completion_says_the_text(whole, id, now);
    answer::chat_completion_says_the_text(start, id, now);
    answer::chat_completion_says_the_text(rest, id, now);
    lemma_text_of_lists(a, b);
}

/// The text of a list is that of its items, one after another.
proof fn lemma_text_of_each(items: Seq<Tree>)
    ensures
        answer::text_in_items(items) == Seq::new(
            items.len(),
            |i: int| answer::text_in(items[i]),
        ).flatten(),
    decreases items.len(),
{
    let texts = Seq::new(items.len(), |i: int| answer::text_in(items[i]));
    if items.len() > 0 {
        let rest = items.drop_first();
        lemma_text_of_each(rest);
        assert(texts.drop_first() =~= Seq::new(rest.len(), |i: int| answer::text_in(rest[i])));
        let first = seq![items[0]];
        let none = Seq::<Tree>::empty();
        assert(items =~= first + rest);
        lemma_text_of_lists(first, rest);
        assert(first.drop_last() =~= none);
        assert(answer::text_in_items(none) == Seq::<char>::empty());
        assert(Seq::<char>::empty() + answer::text_in(items[0]) =~= answer::text_in(items[0]));
        assert(texts.first() == answer::text_in(items[0]));
    }
}

/// What is said of an output that is a list is what is said of each of its items, all of them, one
/// after another.
pub proof fn every_item_is_said(
    response: Tree,
    items: Seq<Tree>,
    alone: Seq<Tree>,
    texts: Seq<Seq<char>>,
    id: Seq<char>,
    now: int,
)
    requires
        response.get_text("output_text"@) is None,
        response.get("output"@) == Some(Tree::Array(items)),
        alone.len() == items.len(),
        texts.len() == items.len(),
        forall|i: int|
            0 <= i < items.len() ==> {
                &&& (#[trigger] alone[i]).get_text("output_text"@) is None
                &&& alone[i].get("output"@) == Some(items[i])
                &&& said(answer::chat_completion(alone[i], id, now)) == Some(texts[i])
            },
    ensures
        said(answer::chat_completion(response, id, now)) == Some(texts.flatten()),
{
    answer::chat_completion_says_the_text(response, id, now);
    lemma_text_of_each(items);
    let own = Seq::new(items.len(), |i: int| answer::text_in(items[i]));
    assert forall|i: int| 0 <= i < items.len() implies own[i] == #[trigger] texts[i] by {
        assert(alone[i].get("output"@) == Some(items[i]));
        answer::chat_completion_says_the_text(alone[i], id, now);
    }
    assert(own =~= texts);
}

/// A member that is found stands in its object.
proof fn lemma_member_stands(entries: Seq<(Seq<char>, Tree)>, key: Seq<char>) -> (k: int)
    requires
        json::lookup(entries, key) is Some,
    ensures
        0 <= k < entries.len(),
        json::lookup(entries, key) == Some(entries[k].1),
    decreases entries.len(),
{
    if entries[0].0 == key {
        0
    } else {
        let k = lemma_member_stands(entries.skip(1), key);
        k + 1
    }
}

/// Every part of every message of an output is said: a text in the content of any item of the list
/// is a part, without a gap, of what the completion says.
pub proof fn every_part_of_a_message_is_said(
    response: Tree,
    items: Seq<Tree>,
    i: int,
    content: Seq<Tree>,
    j: int,
    s: Seq<char>,
    id: Seq<char>,
    now: int,
)
    requires
        response.get_text("output_text"@) is None,
        response.get("output"@) == Some(Tree::Array(items)),
        0 <= i < items.len(),
        items[i].get("content"@) == Some(Tree::Array(content)),
        0 <= j < content.len(),
        speaks(content[j], s),
    ensures
        said(answer::chat_completion(response, id, now)) matches Some(whole) && is_part_of(s, whole),
{
    if let Tree::Object(entries) = items[i] {
        let k = lemma_member_stands(entries, "content"@);
        let path = seq![i, k, j];
        assert(path.skip(1) =~= seq![k, j]);
        assert(seq![k, j].skip(1) =~= seq![j]);
        assert(seq![j].skip(1) =~= Seq::<int>::empty());
        reveal_with_fuel(walk::stands_at, 4);
        assert(walk::stands_at(content[j], Seq::<int>::empty(), content[j]));
        assert(walk::stands_at(Tree::Array(content), seq![j], content[j]));
        assert(walk::stands_at(items[i], seq![k, j], content[j]));
        assert(walk::stands_at(Tree::Array(items), path, content[j]));
        every_text_is_said(response, id, now, path, content[j], s);
    }
}

/// A list with one item says what the item says.
pub proof fn one_item_says_its_text(
    listed: Tree,
    bare: Tree,
    item: Tree,
    id: Seq<char>,
    now: int,
)
    requires
        listed.get_text("output_text"@) is None,
        bare.get_text("output_text"@) is None,
        listed.get("output"@) == Some(Tree::Array(seq![item])),
        bare.get("output"@) == Some(item),
    ensures
        said(answer::chat_completion(listed, id, now)) is Some,
        said(answer::chat_completion(listed, id, now)) == said(
            answer::chat_completion(bare, id, now),
        ),
{
    answer::chat_completion_says_the_text(listed, id, now);
    answer::chat_completion_says_the_text(bare, id, now);
    let none = Seq::<Tree>::empty();
    assert(seq![item].drop_last() == none);
    assert(answer::text_in_items(none) == Seq::<char>::empty());
    assert(Seq::<char>::empty() + answer::text_in(item) == answer::text_in(item));
}

/// An object says its own text, where its kind is one of text, and then what its values say, in the
/// order of keys; nothing else says anything.
pub proof fn object_says_its_text_first(
    response: Tree,
    inner: Tree,
    entries: Seq<(Seq<char>, Tree)>,
    id: Seq<char>,
    now: int,
)
    requires
        response.get_text("output_text"@) is None,
        inner.get_text("output_text"@) is None,
        response.get("output"@) == Some(Tree::Object(entries)),
        inner.get("output"@) == Some(Tree::Array(walk::values(entries))),
    ensures
        ({
            let node = Tree::Object(entries);
            let kind = node.get_text("type"@);
            let is_text = kind == Some("output_text"@) || kind == Some("text"@);
            &&& said(answer::chat_completion(inner, id, now)) matches Some(rest)
            &&& said(answer::chat_completion(response, id, now)) == Some(
                if is_text && node.get_text("text"@) is Some {
                    node.get_text("text"@).unwrap() + rest
                } else {
                    rest
                },
            )
        }),
{
    answer::chat_completion_says_the_text(response, id, now);
    answer::chat_completion_says_the_text(inner, id, now);
    lemma_text_of_values(entries);
    let rest = answer::text_in_entries(entries);
    assert(Seq::<char>::empty() + rest == rest);
}

/// An output that is neither an object nor a list, and an empty list, say nothing.
pub proof fn other_output_says_nothing(response: Tree, id: Seq<char>, now: int)
    requires
        response.get_text("output_text"@) is None,
        response.get("output"@) matches Some(output) && !(output is Object) && (
        output matches Tree::Array(items) ==> items.len() == 0),
    ensures
        said(answer::chat_completion(response, id, now)) == Some(Seq::<char>::empty()),
{
    answer::chat_completion_says_the_text(response, id, now);
}

/// A response without an output says all text that stands in it.
pub proof fn bare_response_says_its_text(
    response: Tree,
    wrapped: Tree,
    id: Seq<char>,
    now: int,
)
    requires
        response.get_text("output_text"@) is None,
        wrapped.get_text("output_text"@) is None,
        response.get("output"@) is None,
        wrapped.get("output"@) == Some(response),
    ensures
        said(answer::chat_completion(response, id, now)) is Some,
        said(answer::chat_completion(response, id, now)) == said(
            answer::chat_completion(wrapped, id, now),
        ),
{
    answer::chat_completion_says_the_text(response, id, now);
    answer::chat_completion_says_the_text(wrapped, id, now);
}

/// A probe shows what a chat completion would say, and a body that is no JSON as it is.
pub proof fn probe_shows_what_is_said(body: Seq<char>, id: Seq<char>, now: int)
    ensures
        match json::json_parsed(text::utf8(body)) {
            Ok(tree) => Some(answer::body_text(body)) == said(
                answer::chat_completion(tree, id, now),
            ),
            Err(_) => answer::body_text(body) == body,
        },
{
    if let Ok(tree) = json::json_parsed(text::utf8(body)) {
        answer::chat_completion_says_the_text(tree, id, now);
    }
}

/// Whether the text `s` is one of an image, and what is listed for it.
pub open spec fn is_image_text(s: Seq<char>, image: Seq<char>) -> bool {
    if "data:image/"@.is_prefix_of(s) {
        exists|start: Seq<char>|
            !start.contains(',') && s == #[trigger] (start + seq![','] + image)
    } else {
        image == s && (text::utf8(s).len() > 64 || "http"@.is_prefix_of(s))
    }
}

/// Whether an object holds the image itself, in one of the members that images stand in.
pub open spec fn shows(node: Tree, image: Seq<char>) -> bool {
    exists|key: Seq<char>|
        {
            &&& key == "result"@ || key == "b64_json"@ || key == "image_url"@ || key == "url"@
            &&& #[trigger] is_member_image(node, key, image)
        }
}

/// The entries of a list of images.
pub open spec fn listed(list: Tree) -> Seq<Tree> {
    match list.get("data"@) {
        Some(Tree::Array(data)) => data,
        _ => Seq::empty(),
    }
}

/// How an image stands in the list: by its address, where addresses are wanted and it is one, and
/// else as data, and in no other way.
pub open spec fn lists(entry: Tree, image: Seq<char>, format: Seq<char>) -> bool {
    let wanted = if format == "url"@ && "http"@.is_prefix_of(image) {
        "url"@
    } else {
        "b64_json"@
    };
    &&& entry.get_text(wanted) == Some(image)
    &&& forall|key: Seq<char>| key != wanted ==> #[trigger] entry.get(key) is None
}

/// The image in a text is what is listed for it.
proof fn lemma_image_text(s: Seq<char>, image: Seq<char>)
    ensures
        (answer::image_in_text(s) == Some(image)) == is_image_text(s, image),
{
    texts::text_is_parted_at_the_first_separator(s, ',');
    if "data:image/"@.is_prefix_of(s) {
        if answer::image_in_text(s) == Some(image) {
            let start = text::split_once(s, ',').unwrap().0;
            assert(s == start + seq![','] + image);
        }
        if is_image_text(s, image) {
            let start = choose|start: Seq<char>|
                !start.contains(',') && s == #[trigger] (start + seq![','] + image);
            text::span_of_free_prefix(start, ',', image);
        }
    }
}

/// The images that an object holds itself are those in the members that images stand in.
proof fn lemma_own_images(node: Tree, image: Seq<char>)
    ensures
        answer::own_images(node).contains(image) == shows(node, image),
{
    let a = answer::image_in_member(node, "result"@);
    let b = answer::image_in_member(node, "b64_json"@);
    let c = answer::image_in_member(node, "image_url"@);
    let d = answer::image_in_member(node, "url"@);
    let all = answer::own_images(node);
    assert(all == a + b + c + d);
    assert forall|key: Seq<char>| #[trigger]
        answer::image_in_member(node, key).contains(image) == (node.get_text(key) matches Some(s)
            && is_image_text(s, image)) by {
        if let Some(s) = node.get_text(key) {
            lemma_image_text(s, image);
            if answer::image_in_text(s) == Some(image) {
                assert(answer::image_in_member(node, key)[0] == image);
            }
        }
    }
    let n1 = a.len() as int;
    let n2 = n1 + b.len();
    let n3 = n2 + c.len();
    if all.contains(image) {
        let i = choose|i: int| 0 <= i < all.len() && all[i] == image;
        if i < n1 {
            assert(a[i] == image);
            assert(a.contains(image));
            assert(is_member_image(node, "result"@, image));
        } else if i < n2 {
            assert(b[i - n1] == image);
            assert(b.contains(image));
            assert(is_member_image(node, "b64_json"@, image));
        } else if i < n3 {
            assert(c[i - n2] == image);
            assert(c.contains(image));
            assert(is_member_image(node, "image_url"@, image));
        } else {
            assert(d[i - n3] == image);
            assert(d.contains(image));
            assert(is_member_image(node, "url"@, image));
        }
    }
    if shows(node, image) {
        if a.contains(image) {
            let i = choose|i: int| 0 <= i < a.len() && a[i] == image;
            assert(all[i] == image);
        } else if b.contains(image) {
            let i = choose|i: int| 0 <= i < b.len() && b[i] == image;
            assert(all[n1 + i] == image);
        } else if c.contains(image) {
            let i = choose|i: int| 0 <= i < c.len() && c[i] == image;
            assert(all[n2 + i] == image);
        } else {
            assert(d.contains(image));
            let i = choose|i: int| 0 <= i < d.len() && d[i] == image;
            assert(all[n3 + i] == image);
        }
    }
}

/// The images of a list are those of its items.
proof fn lemma_images_of_items(items: Seq<Tree>, image: Seq<char>)
    ensures
        answer::images_in_items(items).contains(image) == exists|i: int|
            0 <= i < items.len() && answer::images_in(#[trigger] items[i]).contains(image),
    decreases items.len(),
{
    if items.len() > 0 {
        let fewer = items.drop_last();
        lemma_images_of_items(fewer, image);
        lemma_contains_either(
            answer::images_in_items(fewer),
            answer::images_in(items.last()),
            image,
        );
        if answer::images_in_items(fewer).contains(image) {
            let i = choose|i: int|
                0 <= i < fewer.len() && answer::images_in(#[trigger] fewer[i]).contains(image);
            assert(items[i] == fewer[i]);
        }
        if exists|i: int|
            0 <= i < items.len() && answer::images_in(#[trigger] items[i]).contains(image) {
            let i = choose|i: int|
                0 <= i < items.len() && answer::images_in(#[trigger] items[i]).contains(image);
            if i < fewer.len() {
                assert(fewer[i] == items[i]);
            }
        }
        assert(items[items.len() - 1] == items.last());
    }
}

/// What stands in two lists, one after the other, stands in one of them.
proof fn lemma_contains_either(a: Seq<Seq<char>>, b: Seq<Seq<char>>, x: Seq<char>)
    ensures
        (a + b).contains(x) == (a.contains(x) || b.contains(x)),
{
    if a.contains(x) {
        let i = choose|i: int| 0 <= i < a.len() && a[i] == x;
        assert((a + b)[i] == x);
    }
    if b.contains(x) {
        let i = choose|i: int| 0 <= i < b.len() && b[i] == x;
        assert((a + b)[a.len() + i] == x);
    }
    if (a + b).contains(x) {
        let i = choose|i: int| 0 <= i < (a + b).len() && (a + b)[i] == x;
        if i < a.len() {
            assert(a[i] == x);
        } else {
            assert(b[i - a.len()] == x);
        }
    }
}

/// The images of members are those of their values, one after another.
proof fn lemma_images_of_values(entries: Seq<(Seq<char>, Tree)>)
    ensures
        answer::images_in_entries(entries) == answer::images_in_items(walk::values(entries)),
    decreases entries.len(),
{
    if entries.len() > 0 {
        lemma_images_of_values(entries.drop_last());
        assert(walk::values(entries).drop_last() == walk::values(entries.drop_last()));
        assert(walk::values(entries).last() == entries.last().1);
    }
}

/// An image of an object anywhere in a value is one of its images.
proof fn lemma_image_at(root: Tree, path: Seq<int>, node: Tree, image: Seq<char>)
    requires
        walk::stands_at(root, path, node),
        shows(node, image),
    ensures
        answer::images_in(root).contains(image),
    decreases path.len(),
{
    match root {
        Tree::Object(entries) => {
            lemma_contains_either(
                answer::own_images(root),
                answer::images_in_entries(entries),
                image,
            );
            if path.len() == 0 {
                lemma_own_images(root, image);
            } else {
                lemma_image_at(entries[path[0]].1, path.skip(1), node, image);
                lemma_images_of_values(entries);
                assert(walk::values(entries)[path[0]] == entries[path[0]].1);
                lemma_images_of_items(walk::values(entries), image);
            }
        },
        Tree::Array(items) => {
            if path.len() > 0 {
                lemma_image_at(items[path[0]], path.skip(1), node, image);
                lemma_images_of_items(items, image);
            }
        },
        _ => {},
    }
}

/// Every image of a value is one of an object in it.
proof fn lemma_image_from(root: Tree, image: Seq<char>)
    requires
        answer::images_in(root).contains(image),
    ensures
        exists|node: Tree| #[trigger] walk::stands_in(root, node) && shows(node, image),
    decreases root,
{
    match root {
        Tree::Object(entries) => {
            lemma_contains_either(
                answer::own_images(root),
                answer::images_in_entries(entries),
                image,
            );
            if answer::own_images(root).contains(image) {
                lemma_own_images(root, image);
                walk::stands_in_itself(root);
            } else {
                let values = walk::values(entries);
                lemma_images_of_values(entries);
                lemma_images_of_items(values, image);
                let i = choose|i: int|
                    0 <= i < values.len() && answer::images_in(#[trigger] values[i]).contains(image);
                assert(values[i] == entries[i].1);
                assert(decreases_to!(root => entries));
                assert(decreases_to!(entries => entries[i]));
                assert(decreases_to!(entries[i] => entries[i].1));
                lemma_image_from(entries[i].1, image);
                let node = choose|node: Tree| #[trigger]
                    walk::stands_in(entries[i].1, node) && shows(node, image);
                walk::stands_in_whole(root, i, entries[i].1, node);
            }
        },
        Tree::Array(items) => {
            lemma_images_of_items(items, image);
            let i = choose|i: int|
                0 <= i < items.len() && answer::images_in(#[trigger] items[i]).contains(image);
            lemma_image_from(items[i], image);
            let node = choose|node: Tree| #[trigger]
                walk::stands_in(items[i], node) && shows(node, image);
            walk::stands_in_whole(root, i, items[i], node);
        },
        _ => {},
    }
}

/// The list of images has one entry for each image, in their order.
pub(crate) proof fn lemma_listed(response: Tree, format: Seq<char>, now: int)
    ensures
        ({
            let images = answer::images_in(response);
            let data = listed(answer::image_list(response, format, now));
            &&& answer::image_list(response, format, now).get("created"@) == Some(
                Tree::Integer(now),
            )
            &&& answer::image_list(response, format, now).get("data"@) == Some(Tree::Array(data))
            &&& data.len() == images.len()
            &&& forall|i: int|
                0 <= i < images.len() ==> #[trigger] data[i] == answer::image_entry(
                    images[i],
                    format,
                )
        }),
{
    let images = answer::images_in(response);
    let data = Seq::new(images.len(), |i: int| answer::image_entry(images[i], format));
    reveal_strlit("created");
    reveal_strlit("data");
    assert("created"@.len() == 7 && "data"@.len() == 4);
    let pairs = seq![("created"@, Tree::Integer(now)), ("data"@, Tree::Array(data))];
    json::member_of_object(pairs, 0);
    json::member_of_object(pairs, 1);
}

/// How an image is given.
proof fn lemma_entry(image: Seq<char>, format: Seq<char>)
    ensures
        lists(answer::image_entry(image, format), image, format),
{
    reveal_strlit("url");
    reveal_strlit("b64_json");
    assert("url"@.len() == 3 && "b64_json"@.len() == 8);
    let url = seq![("url"@, Tree::Text(image))];
    let data = seq![("b64_json"@, Tree::Text(image))];
    json::member_of_object(url, 0);
    json::member_of_object(data, 0);
    assert forall|key: Seq<char>| key != "url"@ implies #[trigger] json::object(url).get(
        key,
    ) is None by {
        json::only_members_of_object(url, key);
    }
    assert forall|key: Seq<char>| key != "b64_json"@ implies #[trigger] json::object(data).get(
        key,
    ) is None by {
        json::only_members_of_object(data, key);
    }
}

/// Every image anywhere in a response is listed.
pub proof fn every_image_is_listed(
    response: Tree,
    format: Seq<char>,
    now: int,
    path: Seq<int>,
    node: Tree,
    key: Seq<char>,
    s: Seq<char>,
    image: Seq<char>,
)
    requires
        walk::stands_at(response, path, node),
        key == "result"@ || key == "b64_json"@ || key == "image_url"@ || key == "url"@,
        node.get_text(key) == Some(s),
        is_image_text(s, image),
    ensures
        exists|i: int|
            0 <= i < listed(answer::image_list(response, format, now)).len() && lists(
                #[trigger] listed(answer::image_list(response, format, now))[i],
                image,
                format,
            ),
{
    assert(is_member_image(node, key, image));
    lemma_image_at(response, path, node, image);
    lemma_listed(response, format, now);
    let images = answer::images_in(response);
    let i = choose|i: int| 0 <= i < images.len() && images[i] == image;
    lemma_entry(image, format);
    assert(lists(listed(answer::image_list(response, format, now))[i], image, format));
}

/// A list of images holds nothing but images of the response.
pub proof fn nothing_else_is_listed(response: Tree, format: Seq<char>, now: int, i: int)
    requires
        0 <= i < listed(answer::image_list(response, format, now)).len(),
    ensures
        exists|node: Tree, image: Seq<char>|
            {
                &&& walk::stands_in(response, node)
                &&& #[trigger] shows(node, image)
                &&& lists(listed(answer::image_list(response, format, now))[i], image, format)
            },
{
    lemma_listed(response, format, now);
    let images = answer::images_in(response);
    let image = images[i];
    assert(images.contains(image));
    lemma_image_from(response, image);
    let node = choose|node: Tree| #[trigger]
        walk::stands_in(response, node) && shows(node, image);
    lemma_entry(image, format);
    assert(shows(node, image));
}

/// The images of two lists, one after the other, are those of the one and then those of the other.
proof fn lemma_images_of_lists(a: Seq<Tree>, b: Seq<Tree>)
    ensures
        answer::images_in_items(a + b) == answer::images_in_items(a) + answer::images_in_items(b),
    decreases b.len(),
{
    if b.len() == 0 {
        assert(a + b == a);
        assert(answer::images_in_items(a) + Seq::<Seq<char>>::empty() == answer::images_in_items(a));
    } else {
        lemma_images_of_lists(a, b.drop_last());
        assert((a + b).drop_last() == a + b.drop_last());
        assert((a + b).last() == b.last());
        assert(answer::images_in_items(a) + (answer::images_in_items(b.drop_last())
            + answer::images_in(b.last())) == (answer::images_in_items(a)
            + answer::images_in_items(b.drop_last())) + answer::images_in(b.last()));
    }
}

/// Images are listed in the order in which they stand in lists.
pub proof fn images_are_listed_in_order(a: Seq<Tree>, b: Seq<Tree>, format: Seq<char>, now: int)
    ensures
        listed(answer::image_list(Tree::Array(a + b), format, now)) == listed(
            answer::image_list(Tree::Array(a), format, now),
        ) + listed(answer::image_list(Tree::Array(b), format, now)),
{
    lemma_images_of_lists(a, b);
    lemma_listed(Tree::Array(a + b), format, now);
    lemma_listed(Tree::Array(a), format, now);
    lemma_listed(Tree::Array(b), format, now);
}

/// A list with one item has the images of the item; what is neither an object nor a list has none.
pub proof fn one_item_has_its_images(item: Tree, format: Seq<char>, now: int)
    ensures
        listed(answer::image_list(Tree::Array(seq![item]), format, now)) == listed(
            answer::image_list(item, format, now),
        ),
        !(item is Object) && !(item is Array) ==> listed(
            answer::image_list(item, format, now),
        ).len() == 0,
{
    let none = Seq::<Tree>::empty();
    assert(seq![item].drop_last() == none);
    assert(answer::images_in_items(none) == Seq::<Seq<char>>::empty());
    assert(Seq::<Seq<char>>::empty() + answer::images_in(item) == answer::images_in(item));
    lemma_listed(Tree::Array(seq![item]), format, now);
    lemma_listed(item, format, now);
}

/// The images of an object come first: that in its result, then its data, then its two addresses,
/// each where it has one; those of its values follow, in the order of keys.
pub proof fn object_has_its_images_first(
    entries: Seq<(Seq<char>, Tree)>,
    format: Seq<char>,
    now: int,
    own: Seq<Tree>,
)
    requires
        ({
            let node = Tree::Object(entries);
            exists|a: Seq<Tree>, b: Seq<Tree>, c: Seq<Tree>, d: Seq<Tree>|
                {
                    &&& #[trigger] is_listed_member(node, "result"@, format, a)
                    &&& #[trigger] is_listed_member(node, "b64_json"@, format, b)
                    &&& #[trigger] is_listed_member(node, "image_url"@, format, c)
                    &&& #[trigger] is_listed_member(node, "url"@, format, d)
                    &&& own == a + b + c + d
                }
        }),
    ensures
        listed(answer::image_list(Tree::Object(entries), format, now)).len() == own.len() + listed(
            answer::image_list(Tree::Array(walk::values(entries)), format, now),
        ).len(),
        forall|i: int|
            0 <= i < own.len() ==> {
                let entry = #[trigger] listed(
                    answer::image_list(Tree::Object(entries), format, now),
                )[i];
                &&& entry.get_text("url"@) == own[i].get_text("url"@)
                &&& entry.get_text("b64_json"@) == own[i].get_text("b64_json"@)
            },
        listed(answer::image_list(Tree::Object(entries), format, now)).skip(own.len() as int)
            == listed(answer::image_list(Tree::Array(walk::values(entries)), format, now)),
{
    let node = Tree::Object(entries);
    let (a, b, c, d) = choose|a: Seq<Tree>, b: Seq<Tree>, c: Seq<Tree>, d: Seq<Tree>|
        {
            &&& #[trigger] is_listed_member(node, "result"@, format, a)
            &&& #[trigger] is_listed_member(node, "b64_json"@, format, b)
            &&& #[trigger] is_listed_member(node, "image_url"@, format, c)
            &&& #[trigger] is_listed_member(node, "url"@, format, d)
            &&& own == a + b + c + d
        };
    lemma_listed(node, format, now);
    lemma_listed(Tree::Array(walk::values(entries)), format, now);
    lemma_images_of_values(entries);
    let images = answer::images_in(node);
    let mine = answer::own_images(node);
    let rest = answer::images_in_entries(entries);
    assert(images == mine + rest);
    let p = answer::image_in_member(node, "result"@);
    let q = answer::image_in_member(node, "b64_json"@);
    let r = answer::image_in_member(node, "image_url"@);
    let t = answer::image_in_member(node, "url"@);
    lemma_listed_member(node, "result"@, format, a);
    lemma_listed_member(node, "b64_json"@, format, b);
    lemma_listed_member(node, "image_url"@, format, c);
    lemma_listed_member(node, "url"@, format, d);
    assert(mine == p + q + r + t);
    let all = listed(answer::image_list(node, format, now));
    assert forall|i: int| 0 <= i < own.len() implies {
        let entry = #[trigger] all[i];
        &&& entry.get_text("url"@) == own[i].get_text("url"@)
        &&& entry.get_text("b64_json"@) == own[i].get_text("b64_json"@)
    } by {
        lemma_entry(images[i], format);
        let n1 = a.len() as int;
        let n2 = n1 + b.len();
        let n3 = n2 + c.len();
        if i < n1 {
            assert(images[i] == p[i] && own[i] == a[i]);
        } else if i < n2 {
            assert(images[i] == q[i - n1] && own[i] == b[i - n1]);
        } else if i < n3 {
            assert(images[i] == r[i - n2] && own[i] == c[i - n2]);
        } else {
            assert(images[i] == t[i - n3] && own[i] == d[i - n3]);
        }
    }
    let inner = listed(answer::image_list(Tree::Array(walk::values(entries)), format, now));
    assert forall|i: int| 0 <= i < inner.len() implies #[trigger] all.skip(own.len() as int)[i]
        == inner[i] by {
        assert(images[own.len() + i] == rest[i]);
    }
    assert(all.skip(own.len() as int) == inner);
}

/// Whether the member `key` of an object is an image, and what is listed for it.
pub open spec fn is_member_image(node: Tree, key: Seq<char>, image: Seq<char>) -> bool {
    node.get_text(key) matches Some(s) && is_image_text(s, image)
}

/// Whether `entries` are what is listed for the member `key` of an object: one entry, where it is
/// an image, and none where it is not.
pub open spec fn is_listed_member(
    node: Tree,
    key: Seq<char>,
    format: Seq<char>,
    entries: Seq<Tree>,
) -> bool {
    if exists|image: Seq<char>| is_member_image(node, key, image) {
        exists|image: Seq<char>| #[trigger]
            is_member_image(node, key, image) && entries.len() == 1 && lists(
                entries[0],
                image,
                format,
            )
    } else {
        entries.len() == 0
    }
}

/// What is listed for a member is its image.
proof fn lemma_listed_member(node: Tree, key: Seq<char>, format: Seq<char>, entries: Seq<Tree>)
    requires
        is_listed_member(node, key, format, entries),
    ensures
        entries.len() == answer::image_in_member(node, key).len(),
        forall|i: int|
            0 <= i < entries.len() ==> lists(
                #[trigger] entries[i],
                answer::image_in_member(node, key)[i],
                format,
            ),
{
    if let Some(s) = node.get_text(key) {
        match answer::image_in_text(s) {
            Some(image) => {
                lemma_image_text(s, image);
                assert(is_member_image(node, key, image));
                let other = choose|other: Seq<char>| #[trigger]
                    is_member_image(node, key, other) && entries.len() == 1 && lists(
                        entries[0],
                        other,
                        format,
                    );
                lemma_image_text(s, other);
            },
            None => {
                assert forall|image: Seq<char>| !#[trigger] is_member_image(node, key, image) by {
                    lemma_image_text(s, image);
                }
            },
        }
    }
}

} // verus!
