//! Chat requests and the tools and models of a request: what they ask of the upstream.
use crate::gateway::images;
use crate::json;
use crate::json::{Json, JsonMap, Tree};
use crate::text;
use vstd::prelude::*;

verus! {

/// The model that is run where a request names none.
pub const DEFAULT_MODEL: &'static str = "gpt-5-codex";

/// The tool that makes images.
pub open spec fn plain_image_tool() -> Tree {
    json::object(seq![("type"@, Tree::Text("image_generation"@))])
}

/// Whether a tool that makes images is among `tools`.
pub open spec fn has_image_tool(tools: Seq<Tree>) -> bool {
    exists|i: int|
        0 <= i < tools.len() && (#[trigger] tools[i]).get_text("type"@) == Some(
            "image_generation"@,
        )
}

/// The request `tree` with a tool that makes images among its tools.
pub open spec fn with_image_tool(tree: Tree) -> Tree {
    match tree {
        Tree::Object(entries) => match json::lookup(entries, "tools"@) {
            None => Tree::Object(
                json::with_entry(entries, "tools"@, Tree::Array(seq![plain_image_tool()])),
            ),
            Some(Tree::Array(tools)) => if has_image_tool(tools) {
                tree
            } else {
                Tree::Object(
                    json::with_entry(
                        entries,
                        "tools"@,
                        Tree::Array(tools.push(plain_image_tool())),
                    ),
                )
            },
            Some(_) => tree,
        },
        _ => tree,
    }
}

/// The tool that makes images.
fn build_plain_image_tool() -> (r: Json)
    ensures
        r@ == plain_image_tool(),
{
    let members: Vec<(&str, Json)> = vec![("type", Json::text("image_generation"))];
    assert(json::pair_trees(members@) == seq![("type"@, Tree::Text("image_generation"@))]);
    json::json_object(members)
}

/// The tools of a request with a tool that makes images, where they lack one.
fn missing_image_tool(tools: Option<&Json>) -> (r: Option<Json>)
    ensures
        match tools {
            None => r matches Some(value) && value@ == Tree::Array(seq![plain_image_tool()]),
            Some(value) => match value@ {
                Tree::Array(items) => if has_image_tool(items) {
                    r is None
                } else {
                    r matches Some(value) && value@ == Tree::Array(items.push(plain_image_tool()))
                },
                _ => r is None,
            },
        },
{
    match tools {
        None => {
            let tool: Json = build_plain_image_tool();
            let list: Vec<Json> = vec![tool];
            assert(json::trees(list@) == seq![plain_image_tool()]);
            Some(Json::array(list))
        },
        Some(value) => match value.clone() {
            Json::Array(items) => {
                let mut items: Vec<Json> = items;
                let ghost all = json::trees(items@);
                let mut i: usize = 0;
                while i < items.len()
                    invariant
                        i <= items@.len(),
                        all == json::trees(items@),
                        tools == Some(value),
                        value@ == Tree::Array(all),
                        forall|k: int|
                            0 <= k < i ==> (#[trigger] all[k]).get_text("type"@) != Some(
                                "image_generation"@,
                            ),
                    decreases items@.len() - i,
                {
                    assert(all[i as int] == items@[i as int]@);
                    if let Some(kind) = items[i].get_text("type") {
                        if text::same_text(kind.as_str(), "image_generation") {
                            assert(has_image_tool(all));
                            return None;
                        }
                    }
                    i += 1;
                }
                let tool: Json = build_plain_image_tool();
                items.push(tool);
                assert(json::trees(items@) == all.push(plain_image_tool()));
                Some(Json::array(items))
            },
            _ => None,
        },
    }
}

/// Sees to it that a tool that makes images is among the tools of a request.
pub fn inject_image_tool(body: &mut Json)
    ensures
        final(body)@ == with_image_tool(old(body)@),
{
    let mut taken: Json = Json::Null;
    std::mem::swap(&mut taken, body);
    match taken {
        Json::Object(map) => {
            let mut map: JsonMap = map;
            if let Some(tools) = missing_image_tool(map.get("tools")) {
                map.insert("tools".to_owned(), tools);
            }
            *body = Json::Object(map);
        },
        other => {
            *body = other;
        },
    }
}

/// The request `tree` with the model that an older name stands for.
pub open spec fn with_model_alias(tree: Tree) -> Tree {
    match tree {
        Tree::Object(entries) => if tree.get_text("model"@) == Some("codex-mini-latest"@) {
            Tree::Object(
                json::with_entry(entries, "model"@, Tree::Text("gpt-5-codex-mini"@)),
            )
        } else {
            tree
        },
        _ => tree,
    }
}

/// Puts the model in the place of an older name for it.
pub fn rewrite_model_alias(body: &mut Json)
    ensures
        final(body)@ == with_model_alias(old(body)@),
{
    let is_alias: bool = match body.get_text("model") {
        Some(model) => text::same_text(model.as_str(), "codex-mini-latest"),
        None => false,
    };
    if !is_alias {
        return;
    }
    let mut taken: Json = Json::Null;
    std::mem::swap(&mut taken, body);
    match taken {
        Json::Object(map) => {
            let mut map: JsonMap = map;
            map.insert("model".to_owned(), Json::text("gpt-5-codex-mini"));
            *body = Json::Object(map);
        },
        other => {
            *body = other;
        },
    }
}

/// The text of the member `key`, or nothing.
pub open spec fn text_or_empty(tree: Tree, key: Seq<char>) -> Seq<char> {
    match tree.get_text(key) {
        Some(s) => s,
        None => Seq::empty(),
    }
}

/// What a part of the content of a chat message becomes; one without a kind is dropped.
pub open spec fn chat_part(part: Tree) -> Option<Tree> {
    match part.get_text("type"@) {
        Some(kind) => if kind == "text"@ || kind == "input_text"@ {
            Some(images::text_part(text_or_empty(part, "text"@)))
        } else if kind == "image_url"@ {
            Some(
                images::image_part(
                    match part.get("image_url"@) {
                        Some(image) => text_or_empty(image, "url"@),
                        None => Seq::empty(),
                    },
                ),
            )
        } else {
            Some(part)
        },
        None => None,
    }
}

/// What the parts of the content of a chat message become.
pub open spec fn chat_parts(parts: Seq<Tree>) -> Seq<Tree>
    decreases parts.len(),
{
    if parts.len() == 0 {
        Seq::empty()
    } else {
        match chat_part(parts.last()) {
            Some(part) => chat_parts(parts.drop_last()).push(part),
            None => chat_parts(parts.drop_last()),
        }
    }
}

/// What the content of a chat message becomes.
pub open spec fn chat_content(content: Tree) -> Tree {
    match content {
        Tree::Text(s) => Tree::Array(seq![images::text_part(s)]),
        Tree::Array(parts) => Tree::Array(chat_parts(parts)),
        _ => content,
    }
}

/// What a part of the content of a chat message becomes.
fn normalize_chat_part(part: &Json) -> (r: Option<Json>)
    ensures
        match r {
            Some(value) => chat_part(part@) == Some(value@),
            None => chat_part(part@) is None,
        },
{
    let kind: &String = match part.get_text("type") {
        Some(kind) => kind,
        None => {
            return None;
        },
    };
    if text::same_text(kind.as_str(), "text") || text::same_text(kind.as_str(), "input_text") {
        match part.get_text("text") {
            Some(s) => Some(images::build_text_part(s.as_str())),
            None => {
                let empty: String = String::new();
                Some(images::build_text_part(empty.as_str()))
            },
        }
    } else if text::same_text(kind.as_str(), "image_url") {
        let url: Option<&String> = match part.get("image_url") {
            Some(image) => image.get_text("url"),
            None => None,
        };
        match url {
            Some(url) => Some(images::build_image_part(url.as_str())),
            None => {
                let empty: String = String::new();
                Some(images::build_image_part(empty.as_str()))
            },
        }
    } else {
        Some(part.clone())
    }
}

/// What the content of a chat message becomes.
pub fn normalize_chat_content(content: &Json) -> (r: Json)
    ensures
        r@ == chat_content(content@),
{
    match content {
        Json::Text(s) => {
            let part: Json = images::build_text_part(s.as_str());
            let list: Vec<Json> = vec![part];
            assert(json::trees(list@) == seq![images::text_part(s@)]);
            Json::array(list)
        },
        Json::Array(parts) => {
            let ghost all = json::trees(parts@);
            let mut kept: Vec<Json> = Vec::new();
            let mut i: usize = 0;
            assert(json::trees(kept@) == chat_parts(all.take(0)));
            while i < parts.len()
                invariant
                    i <= parts@.len(),
                    all == json::trees(parts@),
                    json::trees(kept@) == chat_parts(all.take(i as int)),
                decreases parts@.len() - i,
            {
                let ghost before = kept@;
                proof {
                    assert(all.take(i + 1).drop_last() == all.take(i as int));
                    assert(all.take(i + 1).last() == parts@[i as int]@);
                }
                if let Some(part) = normalize_chat_part(&parts[i]) {
                    kept.push(part);
                    assert(json::trees(kept@) == json::trees(before).push(part@));
                }
                i += 1;
            }
            assert(all.take(i as int) == all);
            Json::array(kept)
        },
        other => other.clone(),
    }
}

/// Who speaks in a chat message: the user, where it does not say.
pub open spec fn message_role(message: Tree) -> Seq<char> {
    match message.get_text("role"@) {
        Some(role) => role,
        None => "user"@,
    }
}

/// The content of a chat message: nothing, where it has none.
pub open spec fn message_content(message: Tree) -> Tree {
    match message.get("content"@) {
        Some(content) => content,
        None => Tree::Text(Seq::empty()),
    }
}

/// What a chat message becomes.
pub open spec fn chat_message(message: Tree) -> Tree {
    json::object(
        seq![
            ("role"@, Tree::Text(message_role(message))),
            ("content"@, chat_content(message_content(message))),
        ],
    )
}

/// What a chat message becomes.
fn build_chat_message(message: &Json) -> (r: Json)
    ensures
        r@ == chat_message(message@),
{
    let role: Json = match message.get_text("role") {
        Some(role) => Json::Text(role.clone()),
        None => Json::text("user"),
    };
    let content: Json = match message.get("content") {
        Some(content) => normalize_chat_content(content),
        None => {
            let none: Json = Json::Text(String::new());
            normalize_chat_content(&none)
        },
    };
    let members: Vec<(&str, Json)> = vec![("role", role), ("content", content)];
    assert(json::pair_trees(members@) == seq![
        ("role"@, Tree::Text(message_role(message@))),
        ("content"@, chat_content(message_content(message@))),
    ]);
    json::json_object(members)
}

/// The messages of a chat request.
pub open spec fn chat_messages(body: Tree) -> Seq<Tree> {
    match body.get("messages"@) {
        Some(messages) => match messages.items() {
            Some(messages) => messages,
            None => Seq::empty(),
        },
        None => Seq::empty(),
    }
}

/// Whether the member `key` is `true`.
pub open spec fn is_set(body: Tree, key: Seq<char>) -> bool {
    match body.get(key) {
        Some(value) => value.boolean() == Some(true),
        None => false,
    }
}

/// The model that a chat request names, or the one that is run where it names none.
pub open spec fn chat_model(body: Tree) -> Tree {
    match body.get("model"@) {
        Some(model) => model,
        None => Tree::Text(DEFAULT_MODEL@),
    }
}

/// What the messages of a chat request become.
pub open spec fn chat_input(body: Tree) -> Tree {
    let messages = chat_messages(body);
    Tree::Array(Seq::new(messages.len(), |i: int| chat_message(messages[i])))
}

/// What a chat request asks of the upstream, but for the tool that makes images.
pub open spec fn plain_chat_request(body: Tree) -> Tree {
    let entries = json::entries_of(
        seq![
            ("model"@, chat_model(body)),
            ("input"@, chat_input(body)),
            ("stream"@, Tree::Bool(is_set(body, "stream"@))),
            ("store"@, Tree::Bool(is_set(body, "store"@))),
        ],
    );
    match body.get("tools"@) {
        Some(tools) => Tree::Object(json::with_entry(entries, "tools"@, tools)),
        None => Tree::Object(entries),
    }
}

/// What a chat request asks of the upstream.
pub open spec fn chat_request(body: Tree) -> Tree {
    with_image_tool(plain_chat_request(body))
}

/// Whether the member `key` is `true`.
fn flag(body: &Json, key: &str) -> (r: bool)
    ensures
        r == is_set(body@, key@),
{
    match body.get(key) {
        Some(value) => match value.as_bool() {
            Some(b) => b,
            None => false,
        },
        None => false,
    }
}

/// The messages of a chat request, as they become.
fn build_chat_input(body: &Json) -> (r: Json)
    ensures
        r@ == chat_input(body@),
{
    let mut input: Vec<Json> = Vec::new();
    let ghost all = chat_messages(body@);
    let ghost wanted = Seq::new(all.len(), |i: int| chat_message(all[i]));
    assert(json::trees(input@) == wanted.take(0));
    if let Some(messages) = body.get("messages") {
        if let Some(messages) = messages.as_array() {
            let mut i: usize = 0;
            while i < messages.len()
                invariant
                    i <= messages@.len(),
                    all == json::trees(messages@),
                    wanted == Seq::new(all.len(), |i: int| chat_message(all[i])),
                    json::trees(input@) == wanted.take(i as int),
                decreases messages@.len() - i,
            {
                let ghost before = input@;
                let message: Json = build_chat_message(&messages[i]);
                input.push(message);
                assert(json::trees(input@) == json::trees(before).push(message@));
                assert(wanted.take(i + 1) == wanted.take(i as int).push(message@));
                i += 1;
            }
        }
    }
    assert(wanted.take(wanted.len() as int) == wanted);
    Json::array(input)
}

/// What a chat request asks of the upstream.
pub fn build_responses_body_from_chat(body: &Json) -> (r: Json)
    ensures
        r@ == chat_request(body@),
{
    let model: Json = match body.get("model") {
        Some(model) => model.clone(),
        None => Json::text(DEFAULT_MODEL),
    };
    let input: Json = build_chat_input(body);
    let stream: bool = flag(body, "stream");
    let store: bool = flag(body, "store");
    let members: Vec<(&str, Json)> = vec![
        ("model", model),
        ("input", input),
        ("stream", Json::Bool(stream)),
        ("store", Json::Bool(store)),
    ];
    assert(json::pair_trees(members@) == seq![
        ("model"@, chat_model(body@)),
        ("input"@, chat_input(body@)),
        ("stream"@, Tree::Bool(is_set(body@, "stream"@))),
        ("store"@, Tree::Bool(is_set(body@, "store"@))),
    ]);
    let mut map: JsonMap = json::json_map(members);
    if let Some(tools) = body.get("tools") {
        map.insert("tools".to_owned(), tools.clone());
    }
    let mut out: Json = Json::Object(map);
    inject_image_tool(&mut out);
    out
}

/// The models that the gateway lists.
pub open spec fn model_names() -> Seq<Seq<char>> {
    seq![
        "gpt-5-codex"@,
        "gpt-5-codex-mini"@,
        "gpt-5.4"@,
        "gpt-5.4-mini"@,
        "gpt-5.3-codex"@,
        "gpt-5.3-codex-spark"@,
        "gpt-5.2"@,
        "gpt-5.2-codex"@,
        "gpt-5.1-codex-max"@,
        "gpt-5.1-codex-mini"@,
        images::CODEX_IMAGE_MODEL_ID@,
    ]
}

/// How a model is listed.
pub open spec fn model_entry(name: Seq<char>) -> Tree {
    json::object(
        seq![
            ("id"@, Tree::Text(name)),
            ("object"@, Tree::Text("model"@)),
            ("created"@, Tree::Integer(0)),
            ("owned_by"@, Tree::Text("openai"@)),
        ],
    )
}

/// The list of models.
pub open spec fn models_list() -> Tree {
    json::object(
        seq![
            ("object"@, Tree::Text("list"@)),
            (
                "data"@,
                Tree::Array(
                    Seq::new(model_names().len(), |i: int| model_entry(model_names()[i])),
                ),
            ),
        ],
    )
}

/// How a model is listed.
fn build_model_entry(name: &str) -> (r: Json)
    ensures
        r@ == model_entry(name@),
{
    let members: Vec<(&str, Json)> = vec![
        ("id", Json::text(name)),
        ("object", Json::text("model")),
        ("created", Json::Unsigned(0)),
        ("owned_by", Json::text("openai")),
    ];
    assert(json::pair_trees(members@) == seq![
        ("id"@, Tree::Text(name@)),
        ("object"@, Tree::Text("model"@)),
        ("created"@, Tree::Integer(0)),
        ("owned_by"@, Tree::Text("openai"@)),
    ]);
    json::json_object(members)
}

/// The list of models.
pub fn build_models_response() -> (r: Json)
    ensures
        r@ == models_list(),
{
    let names: Vec<&str> = vec![
        "gpt-5-codex",
        "gpt-5-codex-mini",
        "gpt-5.4",
        "gpt-5.4-mini",
        "gpt-5.3-codex",
        "gpt-5.3-codex-spark",
        "gpt-5.2",
        "gpt-5.2-codex",
        "gpt-5.1-codex-max",
        "gpt-5.1-codex-mini",
        images::CODEX_IMAGE_MODEL_ID,
    ];
    let ghost all = model_names();
    let ghost wanted = Seq::new(all.len(), |i: int| model_entry(all[i]));
    let mut data: Vec<Json> = Vec::new();
    let mut i: usize = 0;
    assert(json::trees(data@) == wanted.take(0));
    while i < names.len()
        invariant
            i <= names@.len(),
            all == model_names(),
            names@.len() == all.len(),
            forall|k: int| 0 <= k < names@.len() ==> (#[trigger] names@[k])@ == all[k],
            wanted == Seq::new(all.len(), |i: int| model_entry(all[i])),
            json::trees(data@) == wanted.take(i as int),
        decreases names@.len() - i,
    {
        let ghost before = data@;
        let entry: Json = build_model_entry(names[i]);
        data.push(entry);
        assert(json::trees(data@) == json::trees(before).push(entry@));
        assert(wanted.take(i + 1) == wanted.take(i as int).push(entry@));
        i += 1;
    }
    assert(wanted.take(i as int) == wanted);
    let list: Json = Json::array(data);
    let members: Vec<(&str, Json)> = vec![("object", Json::text("list")), ("data", list)];
    assert(json::pair_trees(members@) == seq![("object"@, Tree::Text("list"@)), ("data"@, list@)]);
    json::json_object(members)
}

/// The tool that makes images is one.
proof fn lemma_plain_image_tool()
    ensures
        plain_image_tool().get_text("type"@) == Some("image_generation"@),
{
    let pairs = seq![("type"@, Tree::Text("image_generation"@))];
    json::member_of_object(pairs, 0);
}

/// A request whose tools are a list, or that names none, has a tool that makes images afterwards.
pub proof fn image_tool_is_offered(tree: Tree)
    requires
        tree is Object,
        tree.get("tools"@) matches Some(tools) ==> tools is Array,
    ensures
        with_image_tool(tree).get("tools"@) matches Some(Tree::Array(tools)) && has_image_tool(
            tools,
        ),
{
    let entries = tree->Object_0;
    lemma_plain_image_tool();
    match json::lookup(entries, "tools"@) {
        Some(Tree::Array(tools)) => {
            let more = tools.push(plain_image_tool());
            assert(more[tools.len() as int].get_text("type"@) == Some("image_generation"@));
            assert(has_image_tool(more));
            json::lookup_after_with_entry(entries, "tools"@, Tree::Array(more), "tools"@);
        },
        _ => {
            let list = seq![plain_image_tool()];
            assert(list[0].get_text("type"@) == Some("image_generation"@));
            assert(has_image_tool(list));
            json::lookup_after_with_entry(entries, "tools"@, Tree::Array(list), "tools"@);
        },
    }
}

/// The tool that makes images is added at most once.
pub proof fn image_tool_is_added_once(tree: Tree)
    ensures
        with_image_tool(with_image_tool(tree)) == with_image_tool(tree),
{
    if tree is Object && (tree.get("tools"@) matches Some(tools) ==> tools is Array) {
        image_tool_is_offered(tree);
    }
}

/// Adding the tool that makes images leaves every other member of a request, and every tool that it
/// names, as they are.
pub proof fn image_tool_keeps_the_rest(tree: Tree, key: Seq<char>)
    ensures
        key != "tools"@ ==> with_image_tool(tree).get(key) == tree.get(key),
        tree.get("tools"@) matches Some(Tree::Array(tools)) ==> {
            &&& with_image_tool(tree).get("tools"@) matches Some(Tree::Array(after))
            &&& tools.is_prefix_of(after)
        },
{
    if let Tree::Object(entries) = tree {
        match json::lookup(entries, "tools"@) {
            Some(Tree::Array(tools)) => {
                let more = tools.push(plain_image_tool());
                json::lookup_after_with_entry(entries, "tools"@, Tree::Array(more), key);
                json::lookup_after_with_entry(entries, "tools"@, Tree::Array(more), "tools"@);
                assert(more.subrange(0, tools.len() as int) == tools);
                assert(tools.subrange(0, tools.len() as int) == tools);
            },
            _ => {
                let list = seq![plain_image_tool()];
                json::lookup_after_with_entry(entries, "tools"@, Tree::Array(list), key);
            },
        }
    }
}

/// No request asks for a model by its alias afterwards.
pub proof fn model_alias_is_resolved(tree: Tree)
    ensures
        with_model_alias(tree).get_text("model"@) != Some("codex-mini-latest"@),
        with_model_alias(with_model_alias(tree)) == with_model_alias(tree),
{
    if let Tree::Object(entries) = tree {
        reveal_strlit("codex-mini-latest");
        reveal_strlit("gpt-5-codex-mini");
        json::lookup_after_with_entry(
            entries,
            "model"@,
            Tree::Text("gpt-5-codex-mini"@),
            "model"@,
        );
        assert("gpt-5-codex-mini"@[0] != "codex-mini-latest"@[0]);
    }
}

/// Resolving an alias leaves every other member of a request as it is.
pub proof fn model_alias_keeps_the_rest(tree: Tree, key: Seq<char>)
    requires
        key != "model"@,
    ensures
        with_model_alias(tree).get(key) == tree.get(key),
{
    if let Tree::Object(entries) = tree {
        json::lookup_after_with_entry(entries, "model"@, Tree::Text("gpt-5-codex-mini"@), key);
    }
}

/// The model that makes images is listed.
pub proof fn image_model_is_listed()
    ensures
        models_list().get("data"@) matches Some(Tree::Array(models)) && models.contains(
            model_entry(images::CODEX_IMAGE_MODEL_ID@),
        ),
{
    let models = Seq::new(model_names().len(), |i: int| model_entry(model_names()[i]));
    let pairs = seq![("object"@, Tree::Text("list"@)), ("data"@, Tree::Array(models))];
    json::member_of_object(pairs, 1);
    assert(models[10] == model_entry(images::CODEX_IMAGE_MODEL_ID@));
}

/// What a chat request asks of the upstream keeps the model, the messages in their order, and the
/// two flags.
pub proof fn chat_request_keeps_members(body: Tree)
    ensures
        chat_request(body).get("model"@) == Some(chat_model(body)),
        chat_request(body).get("input"@) == Some(chat_input(body)),
        chat_request(body).get("stream"@) == Some(Tree::Bool(is_set(body, "stream"@))),
        chat_request(body).get("store"@) == Some(Tree::Bool(is_set(body, "store"@))),
{
    reveal_strlit("model");
    reveal_strlit("input");
    reveal_strlit("stream");
    reveal_strlit("store");
    reveal_strlit("tools");
    let pairs = seq![
        ("model"@, chat_model(body)),
        ("input"@, chat_input(body)),
        ("stream"@, Tree::Bool(is_set(body, "stream"@))),
        ("store"@, Tree::Bool(is_set(body, "store"@))),
    ];
    assert("model"@[0] == 'm' && "input"@[0] == 'i' && "stream"@.len() == 6 && "store"@[0] == 's'
        && "tools"@[0] == 't');
    json::member_of_object(pairs, 0);
    json::member_of_object(pairs, 1);
    json::member_of_object(pairs, 2);
    json::member_of_object(pairs, 3);
    let entries = json::entries_of(pairs);
    assert forall|i: int| 0 <= i < 4 implies plain_chat_request(body).get(
        (#[trigger] pairs[i]).0,
    ) == Some(pairs[i].1) by {
        if let Some(tools) = body.get("tools"@) {
            json::lookup_after_with_entry(entries, "tools"@, tools, pairs[i].0);
        }
    }
    assert forall|i: int| 0 <= i < 4 implies chat_request(body).get((#[trigger] pairs[i]).0)
        == Some(pairs[i].1) by {
        image_tool_keeps_the_rest(plain_chat_request(body), pairs[i].0);
    }
    assert(pairs[0].0 == "model"@ && pairs[1].0 == "input"@ && pairs[2].0 == "stream"@
        && pairs[3].0 == "store"@);
}

/// A request that is read back from what is written for it is so with the tool that makes images.
pub proof fn image_tool_stays_plain(tree: Tree)
    requires
        json::is_plain(tree),
    ensures
        json::is_plain(with_image_tool(tree)),
{
    if let Tree::Object(entries) = tree {
        reveal_strlit("$serde_json::private::RawValue");
        reveal_strlit("type");
        reveal_strlit("tools");
        assert(json::RAW_KEY@.len() == 30 && "type"@.len() == 4 && "tools"@.len() == 5);
        let tool = seq![("type"@, Tree::Text("image_generation"@))];
        json::object_stays_shallow(tool, 0);
        match json::lookup(entries, "tools"@) {
            None => {
                let list = seq![plain_image_tool()];
                json::items_depth_is_greatest(list, 1);
                json::with_entry_stays_shallow(entries, "tools"@, Tree::Array(list), 126);
            },
            Some(Tree::Array(tools)) => {
                let more = tools.push(plain_image_tool());
                json::member_stays_shallow(entries, "tools"@, 126);
                json::parts_are_ordinary(Tree::Array(tools));
                json::items_depth_is_greatest(tools, 125);
                assert forall|i: int| 0 <= i < more.len() implies json::depth(#[trigger] more[i])
                    <= 125 && json::ordinary(more[i]) by {
                    if i < tools.len() {
                        assert(more[i] == tools[i]);
                    }
                }
                json::items_depth_is_greatest(more, 125);
                json::with_entry_stays_shallow(entries, "tools"@, Tree::Array(more), 126);
            },
            _ => {},
        }
    }
}

/// A request that is read back from what is written for it is so without an alias.
pub proof fn model_alias_stays_plain(tree: Tree)
    requires
        json::is_plain(tree),
    ensures
        json::is_plain(with_model_alias(tree)),
{
    if let Tree::Object(entries) = tree {
        reveal_strlit("$serde_json::private::RawValue");
        reveal_strlit("model");
        assert(json::RAW_KEY@.len() == 30 && "model"@.len() == 5);
        json::with_entry_stays_shallow(
            entries,
            "model"@,
            Tree::Text("gpt-5-codex-mini"@),
            126,
        );
    }
}

/// Adding the tool that makes images brings no key with it that `serde_json` has for its own use.
pub proof fn image_tool_stays_raw_free(tree: Tree)
    requires
        json::raw_free(tree),
    ensures
        json::raw_free(with_image_tool(tree)),
{
    if let Tree::Object(entries) = tree {
        reveal_strlit("$serde_json::private::RawValue");
        reveal_strlit("type");
        reveal_strlit("tools");
        assert(json::RAW_KEY@.len() == 30 && "type"@.len() == 4 && "tools"@.len() == 5);
        let none = Seq::<(Seq<char>, Tree)>::empty();
        let tool = seq![("type"@, Tree::Text("image_generation"@))];
        assert(tool.drop_last() == none);
        assert(json::entries_of(none) == none);
        json::with_entry_stays_raw_free(none, "type"@, Tree::Text("image_generation"@));
        assert(json::raw_free(plain_image_tool()));
        match json::lookup(entries, "tools"@) {
            None => {
                let list = seq![plain_image_tool()];
                assert(json::raw_free(Tree::Array(list)));
                json::with_entry_stays_raw_free(entries, "tools"@, Tree::Array(list));
            },
            Some(Tree::Array(tools)) => {
                let more = tools.push(plain_image_tool());
                json::member_is_raw_free(entries, "tools"@);
                json::parts_are_raw_free(Tree::Array(tools));
                assert forall|i: int| 0 <= i < more.len() implies json::raw_free(
                    #[trigger] more[i],
                ) by {
                    if i < tools.len() {
                        assert(more[i] == tools[i]);
                    }
                }
                json::with_entry_stays_raw_free(entries, "tools"@, Tree::Array(more));
            },
            _ => {},
        }
    }
}

/// Resolving an alias brings no key with it that `serde_json` has for its own use.
pub proof fn model_alias_stays_raw_free(tree: Tree)
    requires
        json::raw_free(tree),
    ensures
        json::raw_free(with_model_alias(tree)),
{
    if let Tree::Object(entries) = tree {
        reveal_strlit("$serde_json::private::RawValue");
        reveal_strlit("model");
        assert(json::RAW_KEY@.len() == 30 && "model"@.len() == 5);
        json::with_entry_stays_raw_free(entries, "model"@, Tree::Text("gpt-5-codex-mini"@));
    }
}

} // verus!
