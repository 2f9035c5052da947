//! What a chat is made into.
use crate::gateway::chat;
use crate::gateway::images;
use crate::json;
use crate::json::Tree;
use crate::laws::answers;
use vstd::prelude::*;

verus! {

/// Whether `sent` is a text of a message with just this text.
pub open spec fn is_text_part(sent: Tree, s: Seq<char>) -> bool {
    sent.get_text("type"@) == Some("input_text"@) && sent.get_text("text"@) == Some(s)
}

/// Whether `sent` is an image of a message with just this address.
pub open spec fn is_image_part(sent: Tree, url: Seq<char>) -> bool {
    sent.get_text("type"@) == Some("input_image"@) && sent.get_text("image_url"@) == Some(url)
}

/// The text of the member `key`, or no text.
pub open spec fn text_of(tree: Option<Tree>, key: Seq<char>) -> Seq<char> {
    match tree {
        Some(tree) => match tree.get_text(key) {
            Some(s) => s,
            None => Seq::empty(),
        },
        None => Seq::empty(),
    }
}

/// Whether `sent` is what becomes of a part of a message: a text keeps its text and an image its
/// address; a part of another kind stays as it is.
pub open spec fn is_sent_for(part: Tree, sent: Tree) -> bool {
    let kind = part.get_text("type"@);
    &&& (kind == Some("text"@) || kind == Some("input_text"@)) ==> is_text_part(
        sent,
        text_of(Some(part), "text"@),
    )
    &&& kind == Some("image_url"@) ==> is_image_part(sent, text_of(part.get("image_url"@), "url"@))
    &&& (kind != Some("text"@) && kind != Some("input_text"@) && kind != Some("image_url"@)) ==> (
    kind is Some && sent == part)
}

/// Whether `at` are the places of all parts with a kind, in order.
pub open spec fn are_parts_at(parts: Seq<Tree>, at: Seq<int>) -> bool {
    &&& forall|k: int|
        0 <= k < at.len() ==> 0 <= #[trigger] at[k] < parts.len() && parts[at[k]].get_text("type"@)
            is Some
    &&& forall|k: int, l: int| 0 <= k < l < at.len() ==> #[trigger] at[k] < #[trigger] at[l]
    &&& forall|i: int|
        0 <= i < parts.len() && (#[trigger] parts[i]).get_text("type"@) is Some ==> at.contains(i)
}

/// The messages that a chat is sent as.
pub open spec fn sent_messages(request: Tree) -> Seq<Tree> {
    match request.get("input"@) {
        Some(Tree::Array(input)) => input,
        _ => Seq::empty(),
    }
}

/// A text as a part.
proof fn lemma_text_part(s: Seq<char>)
    ensures
        is_text_part(images::text_part(s), s),
{
    reveal_strlit("type");
    reveal_strlit("text");
    assert("type"@[1] == 'y' && "text"@[1] == 'e');
    let pairs = seq![("type"@, Tree::Text("input_text"@)), ("text"@, Tree::Text(s))];
    json::member_of_object(pairs, 0);
    json::member_of_object(pairs, 1);
}

/// An image as a part.
proof fn lemma_image_part(url: Seq<char>)
    ensures
        is_image_part(images::image_part(url), url),
{
    reveal_strlit("type");
    reveal_strlit("image_url");
    assert("type"@.len() == 4 && "image_url"@.len() == 9);
    let pairs = seq![("type"@, Tree::Text("input_image"@)), ("image_url"@, Tree::Text(url))];
    json::member_of_object(pairs, 0);
    json::member_of_object(pairs, 1);
}

/// What becomes of a part.
proof fn lemma_part(part: Tree)
    ensures
        chat::chat_part(part) is Some == part.get_text("type"@) is Some,
        chat::chat_part(part) matches Some(sent) ==> is_sent_for(part, sent),
{
    reveal_strlit("text");
    reveal_strlit("input_text");
    reveal_strlit("image_url");
    assert("text"@.len() == 4 && "input_text"@.len() == 10 && "image_url"@.len() == 9);
    if let Some(kind) = part.get_text("type"@) {
        lemma_text_part(text_of(Some(part), "text"@));
        lemma_image_part(text_of(part.get("image_url"@), "url"@));
    }
}

/// What becomes of parts, in order.
proof fn lemma_parts(parts: Seq<Tree>, at: Seq<int>)
    requires
        are_parts_at(parts, at),
    ensures
        chat::chat_parts(parts).len() == at.len(),
        forall|k: int|
            0 <= k < at.len() ==> is_sent_for(
                parts[at[k]],
                #[trigger] chat::chat_parts(parts)[k],
            ),
    decreases parts.len(),
{
    if parts.len() == 0 {
        if at.len() > 0 {
            assert(0 <= at[0] < parts.len());
        }
    } else {
        let n = parts.len() - 1;
        let fewer = parts.drop_last();
        lemma_part(parts[n]);
        if parts[n].get_text("type"@) is Some {
            assert(at.contains(n));
            let k = choose|k: int| 0 <= k < at.len() && at[k] == n;
            if k < at.len() - 1 {
                assert(at[k] < at[at.len() - 1]);
            }
            let less = at.drop_last();
            assert(are_parts_at(fewer, less)) by {
                assert forall|k: int| 0 <= k < less.len() implies 0 <= #[trigger] less[k]
                    < fewer.len() && fewer[less[k]].get_text("type"@) is Some by {
                    assert(less[k] == at[k]);
                    assert(at[k] < at[at.len() - 1]);
                }
                assert forall|i: int| 0 <= i < fewer.len() && (#[trigger] fewer[i]).get_text(
                    "type"@,
                ) is Some implies less.contains(i) by {
                    assert(parts[i] == fewer[i]);
                    let k = choose|k: int| 0 <= k < at.len() && at[k] == i;
                    assert(less[k] == i);
                }
            }
            lemma_parts(fewer, less);
            let sent = chat::chat_parts(parts);
            assert forall|k: int| 0 <= k < at.len() implies is_sent_for(
                parts[at[k]],
                #[trigger] sent[k],
            ) by {
                if k < less.len() {
                    assert(sent[k] == chat::chat_parts(fewer)[k]);
                    assert(less[k] == at[k] && 0 <= less[k] < fewer.len());
                    assert(parts[at[k]] == fewer[less[k]]);
                }
            }
        } else {
            assert(are_parts_at(fewer, at)) by {
                assert forall|k: int| 0 <= k < at.len() implies 0 <= #[trigger] at[k] < fewer.len()
                    && fewer[at[k]].get_text("type"@) is Some by {
                    assert(parts[at[k]].get_text("type"@) is Some);
                }
                assert forall|i: int| 0 <= i < fewer.len() && (#[trigger] fewer[i]).get_text(
                    "type"@,
                ) is Some implies at.contains(i) by {
                    assert(parts[i] == fewer[i]);
                }
            }
            lemma_parts(fewer, at);
            assert forall|k: int| 0 <= k < at.len() implies is_sent_for(
                parts[at[k]],
                #[trigger] chat::chat_parts(parts)[k],
            ) by {
                assert(parts[at[k]] == fewer[at[k]]);
            }
        }
    }
}

/// What a message is sent as.
proof fn lemma_message(message: Tree)
    ensures
        chat::chat_message(message).get_text("role"@) == Some(chat::message_role(message)),
        chat::chat_message(message).get("content"@) == Some(
            chat::chat_content(chat::message_content(message)),
        ),
{
    reveal_strlit("role");
    reveal_strlit("content");
    assert("role"@.len() == 4 && "content"@.len() == 7);
    let pairs = seq![
        ("role"@, Tree::Text(chat::message_role(message))),
        ("content"@, chat::chat_content(chat::message_content(message))),
    ];
    json::member_of_object(pairs, 0);
    json::member_of_object(pairs, 1);
}

/// Every message of a chat is sent, in its place, by the same speaker; one without a speaker is the
/// user's.
pub proof fn every_message_is_sent(body: Tree, messages: Seq<Tree>, i: int)
    requires
        body.get("messages"@) == Some(Tree::Array(messages)),
        0 <= i < messages.len(),
    ensures
        ({
            let sent = sent_messages(chat::chat_request(body));
            &&& sent.len() == messages.len()
            &&& sent[i].get_text("role"@) == match messages[i].get_text("role"@) {
                Some(role) => Some(role),
                None => Some("user"@),
            }
        }),
{
    chat::chat_request_keeps_members(body);
    lemma_message(messages[i]);
}

/// A chat without a list of messages is sent as none.
pub proof fn no_messages_are_sent_as_none(body: Tree)
    requires
        body.get("messages"@) matches Some(messages) ==> !(messages is Array),
    ensures
        chat::chat_request(body).get("input"@) == Some(Tree::Array(Seq::empty())),
{
    chat::chat_request_keeps_members(body);
    let none = Seq::<Tree>::empty();
    assert(chat::chat_messages(body) == none);
    assert(Seq::new(none.len(), |i: int| chat::chat_message(none[i])) == none);
}

/// A message with a text, or without a content, is sent as that text, or none.
pub proof fn text_of_a_message_is_sent(body: Tree, messages: Seq<Tree>, i: int)
    requires
        body.get("messages"@) == Some(Tree::Array(messages)),
        0 <= i < messages.len(),
        messages[i].get("content"@) is None || messages[i].get_text("content"@) is Some,
    ensures
        ({
            let sent = sent_messages(chat::chat_request(body));
            &&& sent.len() == messages.len()
            &&& sent[i].get("content"@) matches Some(Tree::Array(content))
            &&& content.len() == 1
            &&& is_text_part(content[0], text_of(Some(messages[i]), "content"@))
        }),
{
    chat::chat_request_keeps_members(body);
    lemma_message(messages[i]);
    lemma_text_part(text_of(Some(messages[i]), "content"@));
}

/// Every part of a message that says what it is, is sent in its order: a text with its text, an
/// image with its address, and another part as it is. A content that is neither a text nor a list is
/// sent as it is.
pub proof fn parts_of_a_message_are_sent(
    body: Tree,
    messages: Seq<Tree>,
    i: int,
    at: Seq<int>,
)
    requires
        body.get("messages"@) == Some(Tree::Array(messages)),
        0 <= i < messages.len(),
        messages[i].get("content"@) is Some,
        messages[i].get("content"@) matches Some(Tree::Array(parts)) ==> are_parts_at(parts, at),
    ensures
        ({
            let sent = sent_messages(chat::chat_request(body));
            &&& sent.len() == messages.len()
            &&& match messages[i].get("content"@) {
                Some(Tree::Array(parts)) => ({
                    &&& sent[i].get("content"@) matches Some(Tree::Array(content))
                    &&& content.len() == at.len()
                    &&& forall|k: int|
                        0 <= k < at.len() ==> is_sent_for(parts[at[k]], #[trigger] content[k])
                }),
                Some(Tree::Text(_)) => true,
                content => sent[i].get("content"@) == content,
            }
        }),
{
    chat::chat_request_keeps_members(body);
    lemma_message(messages[i]);
    if let Some(Tree::Array(parts)) = messages[i].get("content"@) {
        lemma_parts(parts, at);
    }
}

/// A chat is sent to the model that it names, as a stream and to be stored just where it says so,
/// and with nothing but that, its messages and its tools.
pub proof fn chat_keeps_its_settings(body: Tree, key: Seq<char>)
    ensures
        ({
            let request = chat::chat_request(body);
            &&& request.get("model"@) == match body.get("model"@) {
                Some(model) => Some(model),
                None => Some(Tree::Text(chat::DEFAULT_MODEL@)),
            }
            &&& request.get("stream"@) == Some(
                Tree::Bool(body.get("stream"@) == Some(Tree::Bool(true))),
            )
            &&& request.get("store"@) == Some(
                Tree::Bool(body.get("store"@) == Some(Tree::Bool(true))),
            )
            &&& request.get(key) is Some ==> key == "model"@ || key == "input"@ || key == "stream"@
                || key == "store"@ || key == "tools"@
        }),
{
    chat::chat_request_keeps_members(body);
    let plain = chat::plain_chat_request(body);
    if key != "model"@ && key != "input"@ && key != "stream"@ && key != "store"@ && key
        != "tools"@ {
        let pairs = seq![
            ("model"@, chat::chat_model(body)),
            ("input"@, chat::chat_input(body)),
            ("stream"@, Tree::Bool(chat::is_set(body, "stream"@))),
            ("store"@, Tree::Bool(chat::is_set(body, "store"@))),
        ];
        assert forall|i: int| 0 <= i < pairs.len() implies (#[trigger] pairs[i]).0 != key by {
            assert(i == 0 || i == 1 || i == 2 || i == 3);
        }
        json::only_members_of_object(pairs, key);
        if let Some(tools) = body.get("tools"@) {
            json::lookup_after_with_entry(json::entries_of(pairs), "tools"@, tools, key);
        }
        assert(plain.get(key) is None);
        chat::image_tool_keeps_the_rest(plain, key);
    }
}

/// Whether a tool makes images.
pub open spec fn makes_images(tool: Tree) -> bool {
    tool.get_text("type"@) == Some("image_generation"@)
}

/// The tools that a chat has stay, in their order; one that makes images comes behind them just
/// where none of them does. Tools that are no list stay as they are.
pub proof fn chat_keeps_its_tools(body: Tree)
    ensures
        ({
            let after = chat::chat_request(body).get("tools"@);
            match body.get("tools"@) {
                None => after matches Some(Tree::Array(tools)) && tools.len() == 1 && makes_images(
                    tools[0],
                ),
                Some(Tree::Array(tools)) => if exists|i: int|
                    0 <= i < tools.len() && makes_images(#[trigger] tools[i]) {
                    after == Some(Tree::Array(tools))
                } else {
                    after matches Some(Tree::Array(all)) && all.len() == tools.len() + 1
                        && all.drop_last() == tools && makes_images(all.last())
                },
                Some(tools) => after == Some(tools),
            }
        }),
{
    let plain = chat::plain_chat_request(body);
    let entries = json::entries_of(
        seq![
            ("model"@, chat::chat_model(body)),
            ("input"@, chat::chat_input(body)),
            ("stream"@, Tree::Bool(chat::is_set(body, "stream"@))),
            ("store"@, Tree::Bool(chat::is_set(body, "store"@))),
        ],
    );
    reveal_strlit("model");
    reveal_strlit("input");
    reveal_strlit("stream");
    reveal_strlit("store");
    reveal_strlit("tools");
    assert("model"@[0] == 'm' && "input"@[0] == 'i' && "stream"@[0] == 's' && "store"@[0] == 's'
        && "tools"@[0] == 't');
    let pairs = seq![
        ("model"@, chat::chat_model(body)),
        ("input"@, chat::chat_input(body)),
        ("stream"@, Tree::Bool(chat::is_set(body, "stream"@))),
        ("store"@, Tree::Bool(chat::is_set(body, "store"@))),
    ];
    assert forall|i: int| 0 <= i < pairs.len() implies (#[trigger] pairs[i]).0 != "tools"@ by {
        assert(i == 0 || i == 1 || i == 2 || i == 3);
    }
    json::only_members_of_object(pairs, "tools"@);
    if let Some(tools) = body.get("tools"@) {
        json::lookup_after_with_entry(entries, "tools"@, tools, "tools"@);
    }
    assert(plain.get("tools"@) == body.get("tools"@));
    image_tool_comes_last(plain);
}

/// The tools of a request stay, in their order; one that makes images comes behind them just where
/// none of them does.
pub proof fn image_tool_comes_last(tree: Tree)
    requires
        tree is Object,
    ensures
        ({
            let after = chat::with_image_tool(tree).get("tools"@);
            match tree.get("tools"@) {
                None => after matches Some(Tree::Array(tools)) && tools.len() == 1 && makes_images(
                    tools[0],
                ),
                Some(Tree::Array(tools)) => if exists|i: int|
                    0 <= i < tools.len() && makes_images(#[trigger] tools[i]) {
                    after == Some(Tree::Array(tools))
                } else {
                    after matches Some(Tree::Array(all)) && all.len() == tools.len() + 1
                        && all.drop_last() == tools && makes_images(all.last())
                },
                Some(tools) => after == Some(tools),
            }
        }),
{
    let tool = chat::plain_image_tool();
    json::member_of_object(seq![("type"@, Tree::Text("image_generation"@))], 0);
    assert(makes_images(tool));
    if let Tree::Object(entries) = tree {
        match json::lookup(entries, "tools"@) {
            None => {
                json::lookup_after_with_entry(
                    entries,
                    "tools"@,
                    Tree::Array(seq![tool]),
                    "tools"@,
                );
                assert(seq![tool][0] == tool);
            },
            Some(Tree::Array(tools)) => {
                if exists|i: int| 0 <= i < tools.len() && makes_images(#[trigger] tools[i]) {
                    let i = choose|i: int| 0 <= i < tools.len() && makes_images(#[trigger] tools[i]);
                    assert(tools[i].get_text("type"@) == Some("image_generation"@));
                    assert(chat::has_image_tool(tools));
                } else {
                    if chat::has_image_tool(tools) {
                        let i = choose|i: int|
                            0 <= i < tools.len() && (#[trigger] tools[i]).get_text("type"@) == Some(
                                "image_generation"@,
                            );
                        assert(makes_images(tools[i]));
                    }
                    let all = tools.push(tool);
                    json::lookup_after_with_entry(entries, "tools"@, Tree::Array(all), "tools"@);
                    assert(all.drop_last() =~= tools);
                }
            },
            Some(_) => {},
        }
    }
}

/// The name of the smallest model stands for the model itself; a request that names another, or
/// none, stays as it is.
pub proof fn only_the_alias_is_replaced(tree: Tree)
    ensures
        tree.get_text("model"@) == Some("codex-mini-latest"@) ==> chat::with_model_alias(
            tree,
        ).get_text("model"@) == Some("gpt-5-codex-mini"@),
        tree.get_text("model"@) != Some("codex-mini-latest"@) ==> chat::with_model_alias(tree)
            == tree,
{
    if let Tree::Object(entries) = tree {
        json::lookup_after_with_entry(
            entries,
            "model"@,
            Tree::Text("gpt-5-codex-mini"@),
            "model"@,
        );
    }
}

/// Whether the list of models has an entry for the model `name`.
pub open spec fn is_listed(name: Seq<char>) -> bool {
    exists|i: int|
        0 <= i < answers::listed(chat::models_list()).len() && (#[trigger] answers::listed(
            chat::models_list(),
        )[i]).get_text("id"@) == Some(name)
}

/// The list of models is one, of models, and has those that the gateway itself speaks of: the one
/// for chats that name none, the one that an alias stands for, and those for images.
pub proof fn models_in_use_are_listed(i: int)
    requires
        0 <= i < answers::listed(chat::models_list()).len(),
    ensures
        chat::models_list().get_text("object"@) == Some("list"@),
        answers::listed(chat::models_list())[i].get_text("object"@) == Some("model"@),
        answers::listed(chat::models_list())[i].get_text("owned_by"@) == Some("openai"@),
        answers::listed(chat::models_list())[i].get("created"@) == Some(Tree::Integer(0)),
        is_listed(chat::DEFAULT_MODEL@),
        is_listed("gpt-5-codex-mini"@),
        is_listed(images::DEFAULT_IMAGES_MAIN_MODEL@),
        is_listed(images::CODEX_IMAGE_MODEL_ID@),
{
    let names = chat::model_names();
    let data = Seq::new(names.len(), |i: int| chat::model_entry(names[i]));
    reveal_strlit("object");
    reveal_strlit("data");
    reveal_strlit("id");
    reveal_strlit("created");
    reveal_strlit("owned_by");
    assert("object"@.len() == 6 && "data"@.len() == 4 && "id"@.len() == 2 && "created"@.len() == 7
        && "owned_by"@.len() == 8);
    let pairs = seq![("object"@, Tree::Text("list"@)), ("data"@, Tree::Array(data))];
    json::member_of_object(pairs, 0);
    json::member_of_object(pairs, 1);
    assert(answers::listed(chat::models_list()) == data);
    assert forall|i: int| 0 <= i < data.len() implies {
        &&& (#[trigger] data[i]).get_text("id"@) == Some(names[i])
        &&& data[i].get_text("object"@) == Some("model"@)
        &&& data[i].get_text("owned_by"@) == Some("openai"@)
        &&& data[i].get("created"@) == Some(Tree::Integer(0))
    } by {
        let entry = seq![
            ("id"@, Tree::Text(names[i])),
            ("object"@, Tree::Text("model"@)),
            ("created"@, Tree::Integer(0)),
            ("owned_by"@, Tree::Text("openai"@)),
        ];
        json::member_of_object(entry, 0);
        json::member_of_object(entry, 1);
        json::member_of_object(entry, 2);
        json::member_of_object(entry, 3);
    }
    assert(data[0].get_text("id"@) == Some("gpt-5-codex"@));
    assert(data[1].get_text("id"@) == Some("gpt-5-codex-mini"@));
    assert(data[3].get_text("id"@) == Some("gpt-5.4-mini"@));
    assert(data[10].get_text("id"@) == Some(images::CODEX_IMAGE_MODEL_ID@));
}

/// The models that the list names, in their order, and no others.
pub proof fn each_model_is_listed_once(i: int)
    requires
        0 <= i < answers::listed(chat::models_list()).len(),
    ensures
        answers::listed(chat::models_list()).len() == 11,
        answers::listed(chat::models_list())[i].get_text("id"@) == Some(
            seq![
                "gpt-5-codex"@,
                "gpt-5-codex-mini"@,
                "gpt-5.4"@,
                "gpt-5.4-mini"@,
                "gpt-5.3-codex"@,
                "gpt-5.3-codex-spark"@,
                "gpt-5.2"@,
                "gpt-5.2-codex"@,
                "gpt-5.1-codex-max"@,
                "gpt-5.1-codex-mini"@,
                "gpt-image-2"@,
            ][i],
        ),
{
    let names = chat::model_names();
    let data = Seq::new(names.len(), |i: int| chat::model_entry(names[i]));
    reveal_strlit("object");
    reveal_strlit("data");
    reveal_strlit("id");
    reveal_strlit("created");
    reveal_strlit("owned_by");
    assert("object"@.len() == 6 && "data"@.len() == 4 && "id"@.len() == 2 && "created"@.len() == 7
        && "owned_by"@.len() == 8);
    let pairs = seq![("object"@, Tree::Text("list"@)), ("data"@, Tree::Array(data))];
    json::member_of_object(pairs, 1);
    assert(answers::listed(chat::models_list()) == data);
    let entry = seq![
        ("id"@, Tree::Text(names[i])),
        ("object"@, Tree::Text("model"@)),
        ("created"@, Tree::Integer(0)),
        ("owned_by"@, Tree::Text("openai"@)),
    ];
    json::member_of_object(entry, 0);
    assert(i == 0 || i == 1 || i == 2 || i == 3 || i == 4 || i == 5 || i == 6 || i == 7 || i == 8
        || i == 9 || i == 10);
}

} // verus!
