//! Image requests: what they ask of the upstream.
use crate::gateway::http;
use crate::gateway::http::Header;
use crate::gateway::multipart;
use crate::json;
use crate::json::{Json, JsonMap, Tree};
use crate::text;
use vstd::prelude::*;

verus! {

/// The model that clients name for images.
pub const CODEX_IMAGE_MODEL_ID: &'static str = "gpt-image-2";

/// The model that the upstream runs for image requests.
pub const DEFAULT_IMAGES_MAIN_MODEL: &'static str = "gpt-5.4-mini";

/// The members of an image request that are passed on to the tool.
pub open spec fn tool_options() -> Seq<Seq<char>> {
    seq![
        "size"@,
        "quality"@,
        "background"@,
        "output_format"@,
        "output_compression"@,
        "partial_images"@,
    ]
}

/// `entries` with those of the members `keys` of `body` that are not null.
pub open spec fn with_options(
    entries: Seq<(Seq<char>, Tree)>,
    body: Tree,
    keys: Seq<Seq<char>>,
) -> Seq<(Seq<char>, Tree)>
    decreases keys.len(),
{
    if keys.len() == 0 {
        entries
    } else {
        let before = with_options(entries, body, keys.drop_last());
        match body.get(keys.last()) {
            Some(value) => if value is Null {
                before
            } else {
                json::with_entry(before, keys.last(), value)
            },
            None => before,
        }
    }
}

/// The tool for the image request `body`.
pub open spec fn image_tool(body: Tree) -> Tree {
    Tree::Object(
        with_options(
            json::entries_of(seq![("type"@, Tree::Text("image_generation"@))]),
            body,
            tool_options(),
        ),
    )
}

/// The tool for the image request `body`.
pub fn image_generation_tool(body: &Json) -> (r: Json)
    ensures
        r@ == image_tool(body@),
{
    let mut tool: JsonMap = JsonMap::new();
    tool.insert("type".to_owned(), Json::text("image_generation"));
    let ghost start = seq![("type"@, Tree::Text("image_generation"@))];
    proof {
        assert(start.drop_last() == Seq::<(Seq<char>, Tree)>::empty());
        assert(json::entries_of(start.drop_last()) == Seq::<(Seq<char>, Tree)>::empty());
        assert(tool@ == json::entries_of(start));
    }
    let keys: Vec<&str> = vec![
        "size",
        "quality",
        "background",
        "output_format",
        "output_compression",
        "partial_images",
    ];
    let ghost names = tool_options();
    let mut i: usize = 0;
    while i < keys.len()
        invariant
            i <= keys@.len(),
            names == tool_options(),
            keys@.len() == names.len(),
            forall|k: int| 0 <= k < keys@.len() ==> (#[trigger] keys@[k])@ == names[k],
            tool@ == with_options(json::entries_of(start), body@, names.take(i as int)),
        decreases keys@.len() - i,
    {
        proof {
            assert(names.take(i + 1).drop_last() == names.take(i as int));
            assert(keys@[i as int]@ == names[i as int]);
        }
        if let Some(value) = body.get(keys[i]) {
            if !value.is_null() {
                tool.insert(keys[i].to_owned(), value.clone());
            }
        }
        i += 1;
    }
    assert(names.take(i as int) == names);
    Json::Object(tool)
}

/// The model that an image request names: the one for images where it names none.
pub open spec fn image_model(body: Tree) -> Seq<char> {
    match body.get_text("model"@) {
        Some(model) => model,
        None => CODEX_IMAGE_MODEL_ID@,
    }
}

/// The text of the error for another model than the one for images.
pub open spec fn wrong_model_text(model: Seq<char>) -> Seq<char> {
    "unsupported image model "@ + model + "; expected "@ + CODEX_IMAGE_MODEL_ID@
}

/// Whether an image request names the model for images, or none.
pub fn validate_image_model(body: &Json) -> (r: Result<(), String>)
    ensures
        match r {
            Ok(_) => image_model(body@) == CODEX_IMAGE_MODEL_ID@,
            Err(message) => image_model(body@) != CODEX_IMAGE_MODEL_ID@ && message@
                == wrong_model_text(image_model(body@)),
        },
{
    match body.get_text("model") {
        Some(model) => if text::same_text(model.as_str(), CODEX_IMAGE_MODEL_ID) {
            Ok(())
        } else {
            let mut message: String = text::joined("unsupported image model ", model.as_str());
            message.append("; expected ");
            message.append(CODEX_IMAGE_MODEL_ID);
            Err(message)
        },
        None => Ok(()),
    }
}

/// The format in which an image request wants the images.
pub open spec fn wanted_format(body: Tree) -> Seq<char> {
    let named = match body.get("response_format"@) {
        Some(value) => Some(value),
        None => body.get("output_format"@),
    };
    match named {
        Some(value) => match value.text() {
            Some(format) => format,
            None => "b64_json"@,
        },
        None => "b64_json"@,
    }
}

/// The format in which an image request wants the images.
pub fn image_response_format(body: &Json) -> (r: String)
    ensures
        r@ == wanted_format(body@),
{
    let named: Option<&Json> = match body.get("response_format") {
        Some(value) => Some(value),
        None => body.get("output_format"),
    };
    match named {
        Some(value) => match value.as_text() {
            Some(format) => format.clone(),
            None => "b64_json".to_owned(),
        },
        None => "b64_json".to_owned(),
    }
}

/// What an image request asks of the upstream.
pub open spec fn image_request(input: Tree, tool: Tree) -> Tree {
    json::object(
        seq![
            ("model"@, Tree::Text(DEFAULT_IMAGES_MAIN_MODEL@)),
            ("input"@, input),
            ("tools"@, Tree::Array(seq![tool])),
            ("tool_choice"@, json::object(seq![("type"@, Tree::Text("image_generation"@))])),
            ("store"@, Tree::Bool(false)),
            ("stream"@, Tree::Bool(false)),
        ],
    )
}

/// What an image request asks of the upstream.
fn build_image_request(input: Json, tool: Json) -> (r: Json)
    ensures
        r@ == image_request(input@, tool@),
{
    let choice: Vec<(&str, Json)> = vec![("type", Json::text("image_generation"))];
    assert(json::pair_trees(choice@) == seq![("type"@, Tree::Text("image_generation"@))]);
    let tool_choice: Json = json::json_object(choice);
    let tools: Json = Json::array(vec![tool]);
    assert(tools@ == Tree::Array(seq![tool@])) by {
        assert(tools@->Array_0 == seq![tool@]);
    }
    let members: Vec<(&str, Json)> = vec![
        ("model", Json::text(DEFAULT_IMAGES_MAIN_MODEL)),
        ("input", input),
        ("tools", tools),
        ("tool_choice", tool_choice),
        ("store", Json::Bool(false)),
        ("stream", Json::Bool(false)),
    ];
    assert(json::pair_trees(members@) == seq![
        ("model"@, Tree::Text(DEFAULT_IMAGES_MAIN_MODEL@)),
        ("input"@, input@),
        ("tools"@, tools@),
        ("tool_choice"@, tool_choice@),
        ("store"@, Tree::Bool(false)),
        ("stream"@, Tree::Bool(false)),
    ]);
    json::json_object(members)
}

/// What the request `body` for a new image asks of the upstream, or why it is refused.
pub open spec fn generation_request(body: Tree) -> Result<Tree, Seq<char>> {
    if image_model(body) != CODEX_IMAGE_MODEL_ID@ {
        Err(wrong_model_text(image_model(body)))
    } else {
        match body.get_text("prompt"@) {
            Some(prompt) => Ok(image_request(Tree::Text(prompt), image_tool(body))),
            None => Err("images/generations missing prompt"@),
        }
    }
}

/// What the request `body` for a new image asks of the upstream, or why it is refused.
pub fn build_images_generation_request(body: &Json) -> (r: Result<Json, String>)
    ensures
        match r {
            Ok(request) => generation_request(body@) matches Ok(tree) && tree == request@,
            Err(message) => generation_request(body@) matches Err(m) && m == message@,
        },
{
    match validate_image_model(body) {
        Ok(_) => {},
        Err(message) => {
            return Err(message);
        },
    }
    match body.get_text("prompt") {
        Some(prompt) => {
            let tool: Json = image_generation_tool(body);
            Ok(build_image_request(Json::Text(prompt.clone()), tool))
        },
        None => Err("images/generations missing prompt".to_owned()),
    }
}

/// An image in the content of a message.
pub open spec fn image_part(url: Seq<char>) -> Tree {
    json::object(seq![("type"@, Tree::Text("input_image"@)), ("image_url"@, Tree::Text(url))])
}

/// A text in the content of a message.
pub open spec fn text_part(s: Seq<char>) -> Tree {
    json::object(seq![("type"@, Tree::Text("input_text"@)), ("text"@, Tree::Text(s))])
}

/// A text in the content of a message.
pub fn build_text_part(s: &str) -> (r: Json)
    ensures
        r@ == text_part(s@),
{
    let members: Vec<(&str, Json)> = vec![("type", Json::text("input_text")), ("text", Json::text(s))];
    assert(json::pair_trees(members@) == seq![
        ("type"@, Tree::Text("input_text"@)),
        ("text"@, Tree::Text(s@)),
    ]);
    json::json_object(members)
}

/// An image in the content of a message.
pub fn build_image_part(url: &str) -> (r: Json)
    ensures
        r@ == image_part(url@),
{
    let members: Vec<(&str, Json)> = vec![
        ("type", Json::text("input_image")),
        ("image_url", Json::text(url)),
    ];
    assert(json::pair_trees(members@) == seq![
        ("type"@, Tree::Text("input_image"@)),
        ("image_url"@, Tree::Text(url@)),
    ]);
    json::json_object(members)
}

/// The message of a user with a prompt and images.
pub open spec fn user_message(prompt: Seq<char>, images: Seq<Seq<char>>) -> Tree {
    json::object(
        seq![
            ("role"@, Tree::Text("user"@)),
            (
                "content"@,
                Tree::Array(
                    seq![text_part(prompt)] + Seq::new(
                        images.len(),
                        |i: int| image_part(images[i]),
                    ),
                ),
            ),
        ],
    )
}

/// What the request to edit `images` as `prompt` says asks of the upstream.
pub open spec fn edit_request(prompt: Seq<char>, images: Seq<Seq<char>>, tool: Tree) -> Tree {
    image_request(Tree::Array(seq![user_message(prompt, images)]), tool)
}

/// What the request to edit `images` as `prompt` says asks of the upstream.
pub fn build_image_responses_body(prompt: &str, images: &Vec<String>, tool: Json) -> (r: Json)
    ensures
        r@ == edit_request(prompt@, text::texts(images@), tool@),
{
    let ghost urls = text::texts(images@);
    let ghost parts = Seq::new(urls.len(), |i: int| image_part(urls[i]));
    let first: Json = build_text_part(prompt);
    let mut content: Vec<Json> = vec![first];
    assert(json::trees(content@) == seq![text_part(prompt@)] + parts.take(0));
    let mut i: usize = 0;
    while i < images.len()
        invariant
            i <= images@.len(),
            urls == text::texts(images@),
            parts == Seq::new(urls.len(), |i: int| image_part(urls[i])),
            json::trees(content@) == seq![text_part(prompt@)] + parts.take(i as int),
        decreases images@.len() - i,
    {
        let ghost before = content@;
        let part: Json = build_image_part(images[i].as_str());
        content.push(part);
        assert(json::trees(content@) == json::trees(before).push(part@));
        assert(parts.take(i + 1) == parts.take(i as int).push(part@));
        i += 1;
    }
    assert(parts.take(i as int) == parts);
    let members: Vec<(&str, Json)> = vec![
        ("role", Json::text("user")),
        ("content", Json::array(content)),
    ];
    assert(json::pair_trees(members@) == seq![
        ("role"@, Tree::Text("user"@)),
        ("content"@, Tree::Array(seq![text_part(prompt@)] + parts)),
    ]);
    let message: Json = json::json_object(members);
    let input: Json = Json::array(vec![message]);
    assert(input@ == Tree::Array(seq![message@])) by {
        assert(input@->Array_0 == seq![message@]);
    }
    build_image_request(input, tool)
}

/// The image that an item of a request names: its address, or the address in it.
pub open spec fn item_image(item: Tree) -> Option<Seq<char>> {
    match item.get("image_url"@) {
        Some(value) => match value.get("url"@) {
            Some(url) => url.text(),
            None => value.text(),
        },
        None => None,
    }
}

/// The images that the items of a request name.
pub open spec fn item_images(items: Seq<Tree>) -> Seq<Seq<char>>
    decreases items.len(),
{
    if items.len() == 0 {
        Seq::empty()
    } else {
        match item_image(items.last()) {
            Some(url) => item_images(items.drop_last()).push(url),
            None => item_images(items.drop_last()),
        }
    }
}

/// The images that a request to edit names: the one, then those in the list.
pub open spec fn edit_images(body: Tree) -> Seq<Seq<char>> {
    let one = match body.get_text("image"@) {
        Some(image) => seq![image],
        None => Seq::empty(),
    };
    match body.get("images"@) {
        Some(list) => match list.items() {
            Some(items) => one + item_images(items),
            None => one,
        },
        None => one,
    }
}

/// The image that an item of a request names.
fn find_item_image(item: &Json) -> (r: Option<String>)
    ensures
        text::opt_text(r) == item_image(item@),
{
    match item.get("image_url") {
        Some(value) => {
            let found: Option<&String> = match value.get("url") {
                Some(url) => url.as_text(),
                None => value.as_text(),
            };
            match found {
                Some(url) => Some(url.clone()),
                None => None,
            }
        },
        None => None,
    }
}

/// The images that a request to edit names.
pub fn extract_json_edit_images(body: &Json) -> (r: Vec<String>)
    ensures
        text::texts(r@) == edit_images(body@),
{
    let mut images: Vec<String> = Vec::new();
    if let Some(image) = body.get_text("image") {
        images.push(image.clone());
    }
    let ghost one = match body@.get_text("image"@) {
        Some(image) => seq![image],
        None => Seq::empty(),
    };
    assert(text::texts(images@) == one);
    if let Some(list) = body.get("images") {
        if let Some(items) = list.as_array() {
            let ghost all = json::trees(items@);
            let mut i: usize = 0;
            assert(one + item_images(all.take(0)) == one);
            while i < items.len()
                invariant
                    i <= items@.len(),
                    all == json::trees(items@),
                    text::texts(images@) == one + item_images(all.take(i as int)),
                decreases items@.len() - i,
            {
                let ghost before = images@;
                proof {
                    assert(all.take(i + 1).drop_last() == all.take(i as int));
                    assert(all.take(i + 1).last() == items@[i as int]@);
                }
                if let Some(url) = find_item_image(&items[i]) {
                    images.push(url);
                    assert(text::texts(images@) == text::texts(before).push(url@));
                    assert((one + item_images(all.take(i as int))).push(url@) == one + item_images(
                        all.take(i as int),
                    ).push(url@));
                }
                i += 1;
            }
            assert(all.take(i as int) == all);
        }
    }
    images
}

/// What a request to edit asks of the upstream, and the format that it wants.
pub struct EditView {
    pub request: Tree,
    pub format: Seq<char>,
}

/// What a form to edit asks of the upstream, or why it is refused.
pub open spec fn form_edit(form: multipart::FormView) -> Result<EditView, Seq<char>> {
    let fields = Tree::Object(form.fields);
    match fields.get_text("prompt"@) {
        Some(prompt) => if form.images.len() == 0 {
            Err("images/edits multipart missing image"@)
        } else {
            Ok(
                EditView {
                    request: edit_request(prompt, form.images, image_tool(fields)),
                    format: wanted_format(fields),
                },
            )
        },
        None => Err("images/edits multipart missing prompt"@),
    }
}

/// What the request `body` to edit asks of the upstream, or why it is refused.
pub open spec fn json_edit(body: Tree) -> Result<EditView, Seq<char>> {
    if image_model(body) != CODEX_IMAGE_MODEL_ID@ {
        Err(wrong_model_text(image_model(body)))
    } else {
        match body.get_text("prompt"@) {
            Some(prompt) => if edit_images(body).len() == 0 {
                Err("images/edits missing image or images[].image_url"@)
            } else {
                Ok(
                    EditView {
                        request: edit_request(prompt, edit_images(body), image_tool(body)),
                        format: wanted_format(body),
                    },
                )
            },
            None => Err("images/edits missing prompt"@),
        }
    }
}

/// Whether a content type is that of a form.
pub open spec fn is_form(content_type: Seq<char>) -> bool {
    "multipart/form-data"@.is_prefix_of(text::lowercase(content_type))
}

/// What a request to edit asks of the upstream, or why it is refused.
pub open spec fn edit_outcome(headers: Seq<http::HeaderView>, body: Seq<u8>) -> Result<
    EditView,
    Seq<char>,
> {
    let content_type = match http::header_text(headers, "content-type"@) {
        Some(content_type) => content_type,
        None => Seq::empty(),
    };
    if is_form(content_type) {
        match multipart::boundary_in(content_type) {
            Some(boundary) => form_edit(
                multipart::form_of(multipart::parts_of(body, multipart::marker_of(boundary))),
            ),
            None => Err("multipart missing boundary"@),
        }
    } else {
        match json::parsed(body) {
            Some(tree) => json_edit(tree),
            None => Err("images/edits body must be JSON or multipart"@),
        }
    }
}

/// What a form to edit asks of the upstream, or why it is refused.
fn build_form_edit(form: multipart::ParsedMultipart) -> (r: Result<(Json, String), String>)
    ensures
        match r {
            Ok((request, format)) => form_edit(form@) matches Ok(edit) && edit.request == request@
                && edit.format == format@,
            Err(message) => form_edit(form@) matches Err(m) && m == message@,
        },
{
    let images: Vec<String> = form.images;
    let fields: Json = Json::Object(form.raw_fields);
    assert(text::texts(images@).len() == images@.len());
    match fields.get_text("prompt") {
        Some(prompt) => {
            if images.len() == 0 {
                return Err("images/edits multipart missing image".to_owned());
            }
            let tool: Json = image_generation_tool(&fields);
            let format: String = image_response_format(&fields);
            Ok((build_image_responses_body(prompt.as_str(), &images, tool), format))
        },
        None => Err("images/edits multipart missing prompt".to_owned()),
    }
}

/// What the request `body` to edit asks of the upstream, or why it is refused.
fn build_json_edit(body: &Json) -> (r: Result<(Json, String), String>)
    ensures
        match r {
            Ok((request, format)) => json_edit(body@) matches Ok(edit) && edit.request == request@
                && edit.format == format@,
            Err(message) => json_edit(body@) matches Err(m) && m == message@,
        },
{
    match validate_image_model(body) {
        Ok(_) => {},
        Err(message) => {
            return Err(message);
        },
    }
    match body.get_text("prompt") {
        Some(prompt) => {
            let images: Vec<String> = extract_json_edit_images(body);
            assert(text::texts(images@).len() == images@.len());
            if images.len() == 0 {
                return Err("images/edits missing image or images[].image_url".to_owned());
            }
            let format: String = image_response_format(body);
            let tool: Json = image_generation_tool(body);
            Ok((build_image_responses_body(prompt.as_str(), &images, tool), format))
        },
        None => Err("images/edits missing prompt".to_owned()),
    }
}

/// What a request to edit asks of the upstream and the format that it wants, or why it is refused.
pub fn build_images_edit_request(headers: &Vec<Header>, body: &[u8]) -> (r: Result<
    (Json, String),
    String,
>)
    ensures
        match r {
            Ok((request, format)) => edit_outcome(
                http::header_views(headers@),
                body@,
            ) matches Ok(edit) && edit.request == request@ && edit.format == format@,
            Err(message) => edit_outcome(
                http::header_views(headers@),
                body@,
            ) matches Err(m) && m == message@,
        },
{
    let content_type: String = match http::get_header_text(headers, "content-type") {
        Some(content_type) => content_type,
        None => String::new(),
    };
    let lower: String = text::to_lowercase(content_type.as_str());
    if text::starts_with(lower.as_str(), "multipart/form-data") {
        match multipart::parse_multipart_form(content_type.as_str(), body) {
            Some(form) => build_form_edit(form),
            None => Err("multipart missing boundary".to_owned()),
        }
    } else {
        match json::parse_json(body) {
            Ok(value) => build_json_edit(&value),
            Err(_) => Err("images/edits body must be JSON or multipart".to_owned()),
        }
    }
}

/// An image request asks for what it was given, with the one tool, which must be used.
pub proof fn image_request_asks_for_the_input(input: Tree, tool: Tree)
    ensures
        image_request(input, tool).get_text("model"@) == Some(DEFAULT_IMAGES_MAIN_MODEL@),
        image_request(input, tool).get("input"@) == Some(input),
        image_request(input, tool).get("tools"@) == Some(Tree::Array(seq![tool])),
        image_request(input, tool).get("tool_choice"@) matches Some(choice) && choice.get_text(
            "type"@,
        ) == Some("image_generation"@),
        image_request(input, tool).get("store"@) == Some(Tree::Bool(false)),
        image_request(input, tool).get("stream"@) == Some(Tree::Bool(false)),
{
    reveal_strlit("model");
    reveal_strlit("input");
    reveal_strlit("tools");
    reveal_strlit("tool_choice");
    reveal_strlit("store");
    reveal_strlit("stream");
    assert("model"@[0] == 'm' && "input"@[0] == 'i' && "tools"@[0] == 't' && "store"@[0] == 's'
        && "tools"@.len() == 5 && "tool_choice"@.len() == 11 && "stream"@.len() == 6);
    let choice = seq![("type"@, Tree::Text("image_generation"@))];
    json::member_of_object(choice, 0);
    let pairs = seq![
        ("model"@, Tree::Text(DEFAULT_IMAGES_MAIN_MODEL@)),
        ("input"@, input),
        ("tools"@, Tree::Array(seq![tool])),
        ("tool_choice"@, json::object(choice)),
        ("store"@, Tree::Bool(false)),
        ("stream"@, Tree::Bool(false)),
    ];
    json::member_of_object(pairs, 0);
    json::member_of_object(pairs, 1);
    json::member_of_object(pairs, 2);
    json::member_of_object(pairs, 3);
    json::member_of_object(pairs, 4);
    json::member_of_object(pairs, 5);
}

/// A member that is none of the options stays as it was.
proof fn lemma_options_keep(
    entries: Seq<(Seq<char>, Tree)>,
    body: Tree,
    keys: Seq<Seq<char>>,
    key: Seq<char>,
)
    requires
        !keys.contains(key),
    ensures
        json::lookup(with_options(entries, body, keys), key) == json::lookup(entries, key),
    decreases keys.len(),
{
    if keys.len() > 0 {
        let before = keys.drop_last();
        assert(keys[keys.len() - 1] == keys.last());
        assert forall|k: Seq<char>| before.contains(k) implies keys.contains(k) by {
            let i = choose|i: int| 0 <= i < before.len() && before[i] == k;
            assert(keys[i] == k);
        }
        lemma_options_keep(entries, body, before, key);
        if let Some(value) = body.get(keys.last()) {
            json::lookup_after_with_entry(
                with_options(entries, body, before),
                keys.last(),
                value,
                key,
            );
        }
    }
}

/// The tool of an image request is the one that makes images, whatever the request says.
pub proof fn image_tool_makes_images(body: Tree)
    ensures
        image_tool(body).get_text("type"@) == Some("image_generation"@),
{
    let start = seq![("type"@, Tree::Text("image_generation"@))];
    json::member_of_object(start, 0);
    reveal_strlit("type");
    reveal_strlit("size");
    reveal_strlit("quality");
    reveal_strlit("background");
    reveal_strlit("output_format");
    reveal_strlit("output_compression");
    reveal_strlit("partial_images");
    assert("type"@.len() == 4 && "type"@[0] == 't' && "size"@[0] == 's');
    assert("quality"@.len() == 7 && "background"@.len() == 10 && "output_format"@.len() == 13
        && "output_compression"@.len() == 18 && "partial_images"@.len() == 14);
    assert(!tool_options().contains("type"@)) by {
        if tool_options().contains("type"@) {
            let i = choose|i: int|
                0 <= i < tool_options().len() && tool_options()[i] == "type"@;
            assert(i == 0 || i == 1 || i == 2 || i == 3 || i == 4 || i == 5);
        }
    }
    lemma_options_keep(json::entries_of(start), body, tool_options(), "type"@);
}

/// A request to edit shows the upstream the prompt and every image, in their order.
pub proof fn edit_request_shows_every_image(
    prompt: Seq<char>,
    images: Seq<Seq<char>>,
    tool: Tree,
    i: int,
)
    requires
        0 <= i < images.len(),
    ensures
        ({
            &&& edit_request(prompt, images, tool).get("input"@) matches Some(Tree::Array(messages))
            &&& messages.len() == 1
            &&& messages[0].get("content"@) matches Some(Tree::Array(content))
            &&& content.len() == images.len() + 1
            &&& content[0].get_text("text"@) == Some(prompt)
            &&& content[i + 1].get_text("image_url"@) == Some(images[i])
        }),
{
    let message = user_message(prompt, images);
    image_request_asks_for_the_input(Tree::Array(seq![message]), tool);
    let content = seq![text_part(prompt)] + Seq::new(images.len(), |i: int| image_part(images[i]));
    let pairs = seq![("role"@, Tree::Text("user"@)), ("content"@, Tree::Array(content))];
    json::member_of_object(pairs, 1);
    let text = seq![("type"@, Tree::Text("input_text"@)), ("text"@, Tree::Text(prompt))];
    json::member_of_object(text, 1);
    let image = seq![
        ("type"@, Tree::Text("input_image"@)),
        ("image_url"@, Tree::Text(images[i])),
    ];
    json::member_of_object(image, 1);
    assert(content[i + 1] == image_part(images[i]));
}

} // verus!
