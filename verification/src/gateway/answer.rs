//! What comes back from the upstream, and what it becomes.
use crate::gateway::chat;
use crate::gateway::http;
use crate::gateway::http::{HttpReply, ReplyView};
use crate::json;
use crate::json::{Json, Tree};
use crate::outside;
use crate::text;
use vstd::prelude::*;

verus! {

/// The identifier of a response.
pub open spec fn response_id(tree: Tree) -> Option<Seq<char>> {
    match tree.get_text("id"@) {
        Some(id) => Some(id),
        None => match tree.get("response"@) {
            Some(response) => response.get_text("id"@),
            None => None,
        },
    }
}

/// The identifier of a response.
pub fn extract_response_id(value: &Json) -> (r: Option<String>)
    ensures
        text::opt_text(r) == response_id(value@),
{
    let found: Option<&String> = match value.get_text("id") {
        Some(id) => Some(id),
        None => match value.get("response") {
            Some(response) => response.get_text("id"),
            None => None,
        },
    };
    match found {
        Some(id) => Some(id.clone()),
        None => None,
    }
}

/// The response that a request follows on.
pub open spec fn followed_response(body: Seq<u8>) -> Option<Seq<char>> {
    match json::parsed(body) {
        Some(tree) => tree.get_text("previous_response_id"@),
        None => None,
    }
}

/// The response that a request follows on.
pub fn previous_response_id(body: &[u8]) -> (r: Option<String>)
    ensures
        text::opt_text(r) == followed_response(body@),
{
    match json::parse_json(body) {
        Ok(value) => match value.get_text("previous_response_id") {
            Some(id) => Some(id.clone()),
            None => None,
        },
        Err(_) => None,
    }
}

/// The text that an object holds itself, where its kind is one of text.
pub open spec fn own_text(tree: Tree) -> Seq<char> {
    if tree.get_text("type"@) == Some("output_text"@) || tree.get_text("type"@) == Some("text"@) {
        match tree.get_text("text"@) {
            Some(s) => s,
            None => Seq::empty(),
        }
    } else {
        Seq::empty()
    }
}

/// All text in `tree`: of an object its own, then that of its values in the order of keys.
pub open spec fn text_in(tree: Tree) -> Seq<char>
    decreases tree, 0nat,
{
    match tree {
        Tree::Object(entries) => own_text(tree) + text_in_entries(entries),
        Tree::Array(items) => text_in_items(items),
        _ => Seq::empty(),
    }
}

/// All text in the items, one after another.
pub open spec fn text_in_items(items: Seq<Tree>) -> Seq<char>
    decreases items, items.len(),
{
    if items.len() == 0 {
        Seq::empty()
    } else {
        text_in_items(items.drop_last()) + text_in(items.last())
    }
}

/// All text in the values of the entries, one after another.
pub open spec fn text_in_entries(entries: Seq<(Seq<char>, Tree)>) -> Seq<char>
    decreases entries, entries.len(),
{
    if entries.len() == 0 {
        Seq::empty()
    } else {
        text_in_entries(entries.drop_last()) + text_in(entries.last().1)
    }
}

/// Appends the text that an object holds itself.
fn append_own_text(value: &Json, out: &mut String)
    ensures
        final(out)@ == old(out)@ + own_text(value@),
{
    let is_text: bool = match value.get_text("type") {
        Some(kind) => text::same_text(kind.as_str(), "output_text") || text::same_text(
            kind.as_str(),
            "text",
        ),
        None => false,
    };
    if is_text {
        if let Some(s) = value.get_text("text") {
            out.append(s.as_str());
            return;
        }
    }
    assert(old(out)@ + Seq::<char>::empty() == old(out)@);
}

/// Appends all text in `value`.
pub fn collect_text(value: &Json, out: &mut String)
    ensures
        final(out)@ == old(out)@ + text_in(value@),
    decreases value,
{
    let ghost start = out@;
    match value {
        Json::Object(map) => {
            append_own_text(value, out);
            let ghost own = own_text(value@);
            let mut i: usize = 0;
            let n: usize = map.len();
            assert((start + own) + text_in_entries(map@.take(0)) == start + own);
            while i < n
                invariant
                    i <= n == map@.len(),
                    decreases_to!(value => map),
                    out@ == (start + own) + text_in_entries(map@.take(i as int)),
                decreases n - i,
            {
                proof {
                    assert(map@.take(i + 1).drop_last() == map@.take(i as int));
                    assert(map@.take(i + 1).last() == map@[i as int]);
                    assert((start + own) + text_in_entries(map@.take(i + 1)) == ((start + own)
                        + text_in_entries(map@.take(i as int))) + text_in(map@[i as int].1));
                }
                let (_, member) = map.entry(i);
                collect_text(member, out);
                i += 1;
            }
            assert(map@.take(i as int) == map@);
            assert((start + own) + text_in_entries(map@) == start + (own + text_in_entries(map@)));
        },
        Json::Array(items) => {
            let ghost all = json::trees(items@);
            let mut i: usize = 0;
            assert(start + text_in_items(all.take(0)) == start);
            while i < items.len()
                invariant
                    i <= items@.len(),
                    all == json::trees(items@),
                    decreases_to!(value => items),
                    out@ == start + text_in_items(all.take(i as int)),
                decreases items@.len() - i,
            {
                proof {
                    assert(all.take(i + 1).drop_last() == all.take(i as int));
                    assert(all.take(i + 1).last() == items@[i as int]@);
                    assert(start + text_in_items(all.take(i + 1)) == (start + text_in_items(
                        all.take(i as int),
                    )) + text_in(items@[i as int]@));
                }
                collect_text(&items[i], out);
                i += 1;
            }
            assert(all.take(i as int) == all);
        },
        _ => {
            assert(start + Seq::<char>::empty() == start);
        },
    }
}

/// The text of a response: the one that it gives as such, or else all text in its output.
pub open spec fn output_text(response: Tree) -> Seq<char> {
    match response.get_text("output_text"@) {
        Some(s) => s,
        None => match response.get("output"@) {
            Some(output) => text_in(output),
            None => text_in(response),
        },
    }
}

/// The text of a response.
pub fn extract_output_text(response: &Json) -> (r: String)
    ensures
        r@ == output_text(response@),
{
    if let Some(s) = response.get_text("output_text") {
        return s.clone();
    }
    let mut out: String = String::new();
    match response.get("output") {
        Some(output) => collect_text(output, &mut out),
        None => collect_text(response, &mut out),
    }
    assert(out@ == output_text(response@));
    out
}

/// The text of the response with the body `body`: the body itself, where it is no JSON.
pub open spec fn body_text(body: Seq<char>) -> Seq<char> {
    match json::parsed(text::utf8(body)) {
        Some(tree) => output_text(tree),
        None => body,
    }
}

/// The text of the response with the body `body`.
pub fn extract_output_text_from_response_text(body: &str) -> (r: String)
    ensures
        r@ == body_text(body@),
{
    match json::parse_json(body.as_bytes()) {
        Ok(value) => extract_output_text(&value),
        Err(_) => body.to_owned(),
    }
}

/// The image in a text: the data in a data URL, a long text, or an address.
pub open spec fn image_in_text(s: Seq<char>) -> Option<Seq<char>> {
    if "data:image/"@.is_prefix_of(s) {
        match text::split_once(s, ',') {
            Some((_, data)) => Some(data),
            None => None,
        }
    } else if text::utf8(s).len() > 64 || "http"@.is_prefix_of(s) {
        Some(s)
    } else {
        None
    }
}

/// The image in the member `key`, where there is one.
pub open spec fn image_in_member(tree: Tree, key: Seq<char>) -> Seq<Seq<char>> {
    match tree.get_text(key) {
        Some(s) => match image_in_text(s) {
            Some(image) => seq![image],
            None => Seq::empty(),
        },
        None => Seq::empty(),
    }
}

/// The images that an object holds itself.
pub open spec fn own_images(tree: Tree) -> Seq<Seq<char>> {
    image_in_member(tree, "result"@) + image_in_member(tree, "b64_json"@) + image_in_member(
        tree,
        "image_url"@,
    ) + image_in_member(tree, "url"@)
}

/// All images in `tree`: of an object its own, then those of its values in the order of keys.
pub open spec fn images_in(tree: Tree) -> Seq<Seq<char>>
    decreases tree, 0nat,
{
    match tree {
        Tree::Object(entries) => own_images(tree) + images_in_entries(entries),
        Tree::Array(items) => images_in_items(items),
        _ => Seq::empty(),
    }
}

/// All images in the items, one after another.
pub open spec fn images_in_items(items: Seq<Tree>) -> Seq<Seq<char>>
    decreases items, items.len(),
{
    if items.len() == 0 {
        Seq::empty()
    } else {
        images_in_items(items.drop_last()) + images_in(items.last())
    }
}

/// All images in the values of the entries, one after another.
pub open spec fn images_in_entries(entries: Seq<(Seq<char>, Tree)>) -> Seq<Seq<char>>
    decreases entries, entries.len(),
{
    if entries.len() == 0 {
        Seq::empty()
    } else {
        images_in_entries(entries.drop_last()) + images_in(entries.last().1)
    }
}

/// The image in a text.
fn find_image_in_text(s: &String) -> (r: Option<String>)
    ensures
        text::opt_text(r) == image_in_text(s@),
{
    if text::starts_with(s.as_str(), "data:image/") {
        match text::split_at_first(s.as_str(), ',') {
            Some((_, data)) => Some(data),
            None => None,
        }
    } else if s.as_str().as_bytes().len() > 64 || text::starts_with(s.as_str(), "http") {
        Some(s.clone())
    } else {
        None
    }
}

/// Appends the image in the member `key`, where there is one.
fn push_member_image(value: &Json, key: &str, images: &mut Vec<String>)
    ensures
        text::texts(final(images)@) == text::texts(old(images)@) + image_in_member(value@, key@),
{
    let ghost before = images@;
    if let Some(s) = value.get_text(key) {
        if let Some(image) = find_image_in_text(s) {
            images.push(image);
            assert(text::texts(images@) == text::texts(before) + seq![image@]);
            return;
        }
    }
    assert(text::texts(before) + Seq::<Seq<char>>::empty() == text::texts(before));
}

/// Appends all images in `value`.
pub fn collect_image_values(value: &Json, images: &mut Vec<String>)
    ensures
        text::texts(final(images)@) == text::texts(old(images)@) + images_in(value@),
    decreases value,
{
    let ghost start = text::texts(images@);
    match value {
        Json::Object(map) => {
            push_member_image(value, "result", images);
            push_member_image(value, "b64_json", images);
            push_member_image(value, "image_url", images);
            push_member_image(value, "url", images);
            let ghost own = own_images(value@);
            assert(text::texts(images@) == start + own);
            let mut i: usize = 0;
            let n: usize = map.len();
            assert((start + own) + images_in_entries(map@.take(0)) == start + own);
            while i < n
                invariant
                    i <= n == map@.len(),
                    decreases_to!(value => map),
                    text::texts(images@) == (start + own) + images_in_entries(map@.take(i as int)),
                decreases n - i,
            {
                proof {
                    assert(map@.take(i + 1).drop_last() == map@.take(i as int));
                    assert(map@.take(i + 1).last() == map@[i as int]);
                    assert((start + own) + images_in_entries(map@.take(i + 1)) == ((start + own)
                        + images_in_entries(map@.take(i as int))) + images_in(map@[i as int].1));
                }
                let (_, member) = map.entry(i);
                collect_image_values(member, images);
                i += 1;
            }
            assert(map@.take(i as int) == map@);
            assert((start + own) + images_in_entries(map@) == start + (own + images_in_entries(
                map@,
            )));
        },
        Json::Array(items) => {
            let ghost all = json::trees(items@);
            let mut i: usize = 0;
            assert(start + images_in_items(all.take(0)) == start);
            while i < items.len()
                invariant
                    i <= items@.len(),
                    all == json::trees(items@),
                    decreases_to!(value => items),
                    text::texts(images@) == start + images_in_items(all.take(i as int)),
                decreases items@.len() - i,
            {
                proof {
                    assert(all.take(i + 1).drop_last() == all.take(i as int));
                    assert(all.take(i + 1).last() == items@[i as int]@);
                    assert(start + images_in_items(all.take(i + 1)) == (start + images_in_items(
                        all.take(i as int),
                    )) + images_in(items@[i as int]@));
                }
                collect_image_values(&items[i], images);
                i += 1;
            }
            assert(all.take(i as int) == all);
        },
        _ => {
            assert(start + Seq::<Seq<char>>::empty() == start);
        },
    }
}

/// All images in `value`.
pub fn extract_images(value: &Json) -> (r: Vec<String>)
    ensures
        text::texts(r@) == images_in(value@),
{
    let mut images: Vec<String> = Vec::new();
    assert(text::texts(images@) == Seq::<Seq<char>>::empty());
    collect_image_values(value, &mut images);
    assert(Seq::<Seq<char>>::empty() + images_in(value@) == images_in(value@));
    images
}

/// What becomes of a successful answer of the upstream.
#[derive(Debug)]
pub enum ResponseAdapter {
    /// It is passed on.
    Passthrough,
    /// It becomes a chat completion.
    ChatCompletions,
    /// It becomes a list of images, in the given format.
    Images { response_format: String },
}

/// What an adapter is.
pub enum AdapterView {
    Passthrough,
    ChatCompletions,
    Images { response_format: Seq<char> },
}

impl View for ResponseAdapter {
    type V = AdapterView;

    open spec fn view(&self) -> AdapterView {
        match self {
            ResponseAdapter::Passthrough => AdapterView::Passthrough,
            ResponseAdapter::ChatCompletions => AdapterView::ChatCompletions,
            ResponseAdapter::Images { response_format } => AdapterView::Images {
                response_format: response_format@,
            },
        }
    }
}

/// The member `key`, or `other` where there is none.
pub open spec fn member_or(tree: Tree, key: Seq<char>, other: Tree) -> Tree {
    match tree.get(key) {
        Some(value) => value,
        None => other,
    }
}

/// The member `key`, or `other` where there is none.
fn copy_member(value: &Json, key: &str, other: Json) -> (r: Json)
    ensures
        r@ == member_or(value@, key@, other@),
{
    match value.get(key) {
        Some(member) => member.clone(),
        None => other,
    }
}

/// What an assistant says in a chat completion.
pub open spec fn assistant_message(s: Seq<char>) -> Tree {
    json::object(seq![("role"@, Tree::Text("assistant"@)), ("content"@, Tree::Text(s))])
}

/// The one choice of a chat completion.
pub open spec fn only_choice(s: Seq<char>) -> Tree {
    json::object(
        seq![
            ("index"@, Tree::Integer(0)),
            ("message"@, assistant_message(s)),
            ("finish_reason"@, Tree::Text("stop"@)),
        ],
    )
}

/// The chat completion `id` for a response, made at the second `now`.
pub open spec fn chat_completion(response: Tree, id: Seq<char>, now: int) -> Tree {
    json::object(
        seq![
            ("id"@, Tree::Text(id)),
            ("object"@, Tree::Text("chat.completion"@)),
            ("created"@, Tree::Integer(now)),
            ("model"@, member_or(response, "model"@, Tree::Text(chat::DEFAULT_MODEL@))),
            ("choices"@, Tree::Array(seq![only_choice(output_text(response))])),
            ("usage"@, member_or(response, "usage"@, Tree::Null)),
        ],
    )
}

/// The identifier of the chat completion for a response: its own, or one made of `spare_id`.
pub open spec fn completion_id(response: Tree, spare_id: Seq<char>) -> Seq<char> {
    match response_id(response) {
        Some(id) => id,
        None => "chatcmpl-"@ + spare_id,
    }
}

/// The one choice of a chat completion.
fn build_choice(s: String) -> (r: Json)
    ensures
        r@ == only_choice(s@),
{
    let ghost content = s@;
    let inner: Vec<(&str, Json)> = vec![("role", Json::text("assistant")), ("content", Json::Text(s))];
    assert(json::pair_trees(inner@) == seq![
        ("role"@, Tree::Text("assistant"@)),
        ("content"@, Tree::Text(content)),
    ]);
    let message: Json = json::json_object(inner);
    let members: Vec<(&str, Json)> = vec![
        ("index", Json::Unsigned(0)),
        ("message", message),
        ("finish_reason", Json::text("stop")),
    ];
    assert(json::pair_trees(members@) == seq![
        ("index"@, Tree::Integer(0)),
        ("message"@, message@),
        ("finish_reason"@, Tree::Text("stop"@)),
    ]);
    json::json_object(members)
}

/// The chat completion for a response, with the identifier `spare_id` where the response has none,
/// made at the second `now`.
pub fn chat_completion_at(response: &Json, spare_id: &str, now: i64) -> (r: Json)
    ensures
        r@ == chat_completion(response@, completion_id(response@, spare_id@), now as int),
{
    let id: String = match extract_response_id(response) {
        Some(id) => id,
        None => text::joined("chatcmpl-", spare_id),
    };
    let model: Json = copy_member(response, "model", Json::text(chat::DEFAULT_MODEL));
    let usage: Json = copy_member(response, "usage", Json::Null);
    let choice: Json = build_choice(extract_output_text(response));
    let list: Vec<Json> = vec![choice];
    assert(json::trees(list@) == seq![choice@]);
    let choices: Json = Json::array(list);
    let members: Vec<(&str, Json)> = vec![
        ("id", Json::Text(id)),
        ("object", Json::text("chat.completion")),
        ("created", Json::Signed(now)),
        ("model", model),
        ("choices", choices),
        ("usage", usage),
    ];
    assert(json::pair_trees(members@) == seq![
        ("id"@, Tree::Text(completion_id(response@, spare_id@))),
        ("object"@, Tree::Text("chat.completion"@)),
        ("created"@, Tree::Integer(now as int)),
        ("model"@, model@),
        ("choices"@, choices@),
        ("usage"@, usage@),
    ]);
    json::json_object(members)
}

/// The chat completion for a response, made now.
pub fn build_chat_completion_payload(response: &Json) -> (r: Json)
    ensures
        exists|spare_id: Seq<char>, now: int|
            {
                &&& outside::is_random_id(spare_id)
                &&& 0 <= now <= outside::LAST_SECOND
                &&& r@ == #[trigger] chat_completion(
                    response@,
                    completion_id(response@, spare_id),
                    now,
                )
            },
{
    let spare_id: String = outside::random_id();
    let now: i64 = outside::now_seconds();
    chat_completion_at(response, spare_id.as_str(), now)
}

/// How an image is given: by its address, where that is wanted and is what there is, or else as
/// data.
pub open spec fn image_entry(image: Seq<char>, format: Seq<char>) -> Tree {
    if format == "url"@ && "http"@.is_prefix_of(image) {
        json::object(seq![("url"@, Tree::Text(image))])
    } else {
        json::object(seq![("b64_json"@, Tree::Text(image))])
    }
}

/// The list of images in a response, made at the second `now`.
pub open spec fn image_list(response: Tree, format: Seq<char>, now: int) -> Tree {
    let images = images_in(response);
    json::object(
        seq![
            ("created"@, Tree::Integer(now)),
            (
                "data"@,
                Tree::Array(Seq::new(images.len(), |i: int| image_entry(images[i], format))),
            ),
        ],
    )
}

/// How an image is given.
fn build_image_entry(image: &String, format: &str) -> (r: Json)
    ensures
        r@ == image_entry(image@, format@),
{
    if text::same_text(format, "url") && text::starts_with(image.as_str(), "http") {
        let members: Vec<(&str, Json)> = vec![("url", Json::Text(image.clone()))];
        assert(json::pair_trees(members@) == seq![("url"@, Tree::Text(image@))]);
        json::json_object(members)
    } else {
        let members: Vec<(&str, Json)> = vec![("b64_json", Json::Text(image.clone()))];
        assert(json::pair_trees(members@) == seq![("b64_json"@, Tree::Text(image@))]);
        json::json_object(members)
    }
}

/// The list of images in a response, made at the second `now`.
pub fn image_list_at(response: &Json, response_format: &str, now: i64) -> (r: Json)
    ensures
        r@ == image_list(response@, response_format@, now as int),
{
    let images: Vec<String> = extract_images(response);
    let ghost all = images_in(response@);
    let ghost wanted = Seq::new(all.len(), |i: int| image_entry(all[i], response_format@));
    let mut data: Vec<Json> = Vec::new();
    let mut i: usize = 0;
    assert(json::trees(data@) == wanted.take(0));
    while i < images.len()
        invariant
            i <= images@.len(),
            all == text::texts(images@),
            wanted == Seq::new(all.len(), |i: int| image_entry(all[i], response_format@)),
            json::trees(data@) == wanted.take(i as int),
        decreases images@.len() - i,
    {
        let ghost before = data@;
        let entry: Json = build_image_entry(&images[i], response_format);
        data.push(entry);
        assert(json::trees(data@) == json::trees(before).push(entry@));
        assert(wanted.take(i + 1) == wanted.take(i as int).push(entry@));
        i += 1;
    }
    assert(wanted.take(i as int) == wanted);
    let list: Json = Json::array(data);
    let members: Vec<(&str, Json)> = vec![("created", Json::Signed(now)), ("data", list)];
    assert(json::pair_trees(members@) == seq![
        ("created"@, Tree::Integer(now as int)),
        ("data"@, Tree::Array(wanted)),
    ]);
    json::json_object(members)
}

/// The list of images in a response, made now.
pub fn build_images_api_payload(response: &Json, response_format: &str) -> (r: Json)
    ensures
        exists|now: int|
            0 <= now <= outside::LAST_SECOND && r@ == #[trigger] image_list(
                response@,
                response_format@,
                now,
            ),
{
    let now: i64 = outside::now_seconds();
    image_list_at(response, response_format, now)
}

/// An answer of the upstream.
#[derive(Debug)]
pub struct UpstreamReply {
    pub status: u16,
    pub content_type: Option<Vec<u8>>,
    pub body: Vec<u8>,
}

/// What an answer of the upstream is.
pub struct AnswerView {
    pub status: u16,
    pub content_type: Option<Seq<u8>>,
    pub body: Seq<u8>,
}

impl View for UpstreamReply {
    type V = AnswerView;

    open spec fn view(&self) -> AnswerView {
        AnswerView {
            status: self.status,
            content_type: http::opt_bytes(self.content_type),
            body: self.body@,
        }
    }
}

/// What an answer of the upstream becomes, with the identifier `spare_id` where one is needed, at
/// the second `now`.
pub open spec fn adapted(
    reply: AnswerView,
    adapter: AdapterView,
    spare_id: Seq<char>,
    now: int,
) -> ReplyView {
    let passed_on = ReplyView::Bytes {
        status: reply.status,
        content_type: reply.content_type,
        body: reply.body,
    };
    if !http::is_success(reply.status) {
        passed_on
    } else {
        match adapter {
            AdapterView::Passthrough => passed_on,
            AdapterView::ChatCompletions => match json::json_parsed(reply.body) {
                Ok(tree) => http::json_reply(
                    200,
                    chat_completion(tree, completion_id(tree, spare_id), now),
                ),
                Err(error) => http::error_reply(
                    502,
                    "parse upstream chat payload failed: "@ + error,
                ),
            },
            AdapterView::Images { response_format } => match json::json_parsed(reply.body) {
                Ok(tree) => http::json_reply(200, image_list(tree, response_format, now)),
                Err(error) => http::error_reply(
                    502,
                    "parse upstream image payload failed: "@ + error,
                ),
            },
        }
    }
}

/// The response that is remembered for an answer of the upstream, so that a request that follows
/// on it goes to the same account.
pub open spec fn remembered(reply: AnswerView, adapter: AdapterView) -> Option<Seq<char>> {
    if http::is_success(reply.status) && !(adapter is Images) {
        match json::parsed(reply.body) {
            Some(tree) => response_id(tree),
            None => None,
        }
    } else {
        None
    }
}

/// What an answer of the upstream becomes, and the response that is remembered for it, with the
/// identifier `spare_id` where one is needed, at the second `now`.
pub fn adapt_response_at(
    reply: UpstreamReply,
    adapter: &ResponseAdapter,
    spare_id: &str,
    now: i64,
) -> (r: (HttpReply, Option<String>))
    ensures
        r.0@ == adapted(reply@, adapter@, spare_id@, now as int),
        text::opt_text(r.1) == remembered(reply@, adapter@),
{
    if !http::succeeded(reply.status) {
        return (http::bytes_response(reply.status, reply.content_type, reply.body), None);
    }
    match adapter {
        ResponseAdapter::Passthrough => {
            let id: Option<String> = match json::parse_json(reply.body.as_slice()) {
                Ok(value) => extract_response_id(&value),
                Err(_) => None,
            };
            (http::bytes_response(reply.status, reply.content_type, reply.body), id)
        },
        ResponseAdapter::ChatCompletions => match json::parse_json(reply.body.as_slice()) {
            Ok(value) => {
                let id: Option<String> = extract_response_id(&value);
                (http::json_ok(&chat_completion_at(&value, spare_id, now)), id)
            },
            Err(error) => {
                let message: String = text::joined(
                    "parse upstream chat payload failed: ",
                    error.as_str(),
                );
                (http::json_error(502, message.as_str()), None)
            },
        },
        ResponseAdapter::Images { response_format } => match json::parse_json(
            reply.body.as_slice(),
        ) {
            Ok(value) => (
                http::json_ok(&image_list_at(&value, response_format.as_str(), now)),
                None,
            ),
            Err(error) => {
                let message: String = text::joined(
                    "parse upstream image payload failed: ",
                    error.as_str(),
                );
                (http::json_error(502, message.as_str()), None)
            },
        },
    }
}

/// What an answer of the upstream becomes now, and the response that is remembered for it.
pub fn adapt_response(reply: UpstreamReply, adapter: &ResponseAdapter) -> (r: (
    HttpReply,
    Option<String>,
))
    ensures
        exists|spare_id: Seq<char>, now: int|
            {
                &&& outside::is_random_id(spare_id)
                &&& 0 <= now <= outside::LAST_SECOND
                &&& r.0@ == #[trigger] adapted(reply@, adapter@, spare_id, now)
            },
        text::opt_text(r.1) == remembered(reply@, adapter@),
{
    let spare_id: String = outside::random_id();
    let now: i64 = outside::now_seconds();
    adapt_response_at(reply, adapter, spare_id.as_str(), now)
}

/// Why a request is not answered by the upstream.
#[derive(Debug)]
pub struct DispatchError {
    pub status: u16,
    pub message: String,
}

/// What an error of dispatch is.
pub struct ErrorView {
    pub status: u16,
    pub message: Seq<char>,
}

impl View for DispatchError {
    type V = ErrorView;

    open spec fn view(&self) -> ErrorView {
        ErrorView { status: self.status, message: self.message@ }
    }
}

impl DispatchError {
    /// The error with the given status and message.
    pub fn new(status: u16, message: String) -> (r: DispatchError)
        ensures
            r@ == (ErrorView { status, message: message@ }),
    {
        DispatchError { status, message }
    }

    /// The error of a request that the upstream could not be asked.
    pub fn bad_gateway(message: String) -> (r: DispatchError)
        ensures
            r@ == (ErrorView { status: 502, message: message@ }),
    {
        DispatchError::new(502, message)
    }

    /// The error of a request for which no account can be had.
    pub fn unavailable(message: String) -> (r: DispatchError)
        ensures
            r@ == (ErrorView { status: 503, message: message@ }),
    {
        DispatchError::new(503, message)
    }
}

/// The message in the JSON of an error of the upstream.
pub open spec fn error_message(tree: Tree) -> Option<Seq<char>> {
    let in_error = match tree.get("error"@) {
        Some(error) => match error.get("message"@) {
            Some(message) => message.text(),
            None => error.text(),
        },
        None => None,
    };
    match in_error {
        Some(message) => Some(message),
        None => tree.get_text("message"@),
    }
}

/// What an error of the upstream says: the message in its JSON, or else its body, or else its
/// status.
pub open spec fn upstream_error_text(status: u16, body: Seq<char>) -> Seq<char> {
    let message = match json::parsed(text::utf8(body)) {
        Some(tree) => error_message(tree),
        None => None,
    };
    match message {
        Some(message) => message,
        None => if text::trimmed(body).len() == 0 {
            "upstream returned "@ + (text::decimal(status as nat) + seq![' ']
                + outside::reason_phrase(status))
        } else {
            body
        },
    }
}

/// The message in the JSON of an error of the upstream.
fn find_error_message(value: &Json) -> (r: Option<String>)
    ensures
        text::opt_text(r) == error_message(value@),
{
    let in_error: Option<&String> = match value.get("error") {
        Some(error) => match error.get("message") {
            Some(message) => message.as_text(),
            None => error.as_text(),
        },
        None => None,
    };
    match in_error {
        Some(message) => Some(message.clone()),
        None => match value.get_text("message") {
            Some(message) => Some(message.clone()),
            None => None,
        },
    }
}

/// The error for an answer of the upstream that did not succeed.
pub fn upstream_error(status: u16, body: &str) -> (r: DispatchError)
    requires
        100 <= status <= 999,
    ensures
        r@ == (ErrorView { status, message: upstream_error_text(status, body@) }),
{
    let found: Option<String> = match json::parse_json(body.as_bytes()) {
        Ok(value) => find_error_message(&value),
        Err(_) => None,
    };
    let message: String = match found {
        Some(message) => message,
        None => {
            let trimmed: String = text::trim(body);
            if trimmed.as_str().is_empty() {
                let name: String = outside::status_text(status);
                text::joined("upstream returned ", name.as_str())
            } else {
                body.to_owned()
            }
        },
    };
    DispatchError::new(status, message)
}

/// A chat completion says what the response says: its one choice is the assistant's message with
/// the text of the response, and the use of the model is passed on.
pub proof fn chat_completion_says_the_text(response: Tree, id: Seq<char>, now: int)
    ensures
        ({
            let completion = chat_completion(response, id, now);
            &&& completion.get_text("id"@) == Some(id)
            &&& completion.get("choices"@) matches Some(Tree::Array(choices))
            &&& choices.len() == 1
            &&& choices[0].get("message"@) matches Some(message)
            &&& message.get_text("role"@) == Some("assistant"@)
            &&& message.get_text("content"@) == Some(output_text(response))
            &&& completion.get("usage"@) == Some(member_or(response, "usage"@, Tree::Null))
        }),
{
    let said = output_text(response);
    reveal_strlit("id");
    reveal_strlit("object");
    reveal_strlit("created");
    reveal_strlit("model");
    reveal_strlit("choices");
    reveal_strlit("usage");
    reveal_strlit("index");
    reveal_strlit("message");
    reveal_strlit("finish_reason");
    reveal_strlit("role");
    reveal_strlit("content");
    assert("id"@.len() == 2 && "object"@.len() == 6 && "model"@[0] == 'm' && "usage"@[0] == 'u');
    assert("created"@[1] == 'r' && "choices"@[1] == 'h' && "created"@.len() == 7 && "choices"@.len()
        == 7);
    assert("message"@.len() == 7 && "finish_reason"@.len() == 13 && "role"@.len() == 4
        && "content"@.len() == 7);
    let choices = Tree::Array(seq![only_choice(said)]);
    let all = seq![
        ("id"@, Tree::Text(id)),
        ("object"@, Tree::Text("chat.completion"@)),
        ("created"@, Tree::Integer(now)),
        ("model"@, member_or(response, "model"@, Tree::Text(chat::DEFAULT_MODEL@))),
        ("choices"@, choices),
        ("usage"@, member_or(response, "usage"@, Tree::Null)),
    ];
    json::member_of_object(all, 0);
    json::member_of_object(all, 4);
    json::member_of_object(all, 5);
    let choice = seq![
        ("index"@, Tree::Integer(0)),
        ("message"@, assistant_message(said)),
        ("finish_reason"@, Tree::Text("stop"@)),
    ];
    json::member_of_object(choice, 1);
    let message = seq![("role"@, Tree::Text("assistant"@)), ("content"@, Tree::Text(said))];
    json::member_of_object(message, 0);
    json::member_of_object(message, 1);
}

} // verus!
