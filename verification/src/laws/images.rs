//! What a request for images is made into.
use crate::gateway::http;
use crate::gateway::http::HeaderView;
use crate::gateway::images;
use crate::json;
use crate::json::Tree;
use crate::laws::forms;
use crate::text;
use vstd::prelude::*;

verus! {

/// Whether a member of a request for images is an option of the tool that makes them.
pub open spec fn is_option(key: Seq<char>) -> bool {
    key == "size"@ || key == "quality"@ || key == "background"@ || key == "output_format"@ || key
        == "output_compression"@ || key == "partial_images"@
}

/// Whether a request to the upstream has one tool, which makes images with the options of the
/// request `body` and no others, and which must be used.
pub open spec fn makes_images(request: Tree, body: Tree) -> bool {
    &&& request.get("tools"@) matches Some(Tree::Array(tools))
    &&& tools.len() == 1
    &&& tools[0].get_text("type"@) == Some("image_generation"@)
    &&& forall|key: Seq<char>| is_option(key) ==> #[trigger] tools[0].get(key) == (if body.get(key)
        == Some(Tree::Null) {
        None
    } else {
        body.get(key)
    })
    &&& forall|key: Seq<char>|
        key != "type"@ && !is_option(key) ==> #[trigger] tools[0].get(key) is None
    &&& request.get("tool_choice"@) matches Some(choice)
    &&& choice.get_text("type"@) == Some("image_generation"@)
    &&& request.get_text("model"@) == Some(images::DEFAULT_IMAGES_MAIN_MODEL@)
    &&& request.get("store"@) == Some(Tree::Bool(false))
    &&& request.get("stream"@) == Some(Tree::Bool(false))
}

/// The members of a tool after the options.
proof fn lemma_options(
    entries: Seq<(Seq<char>, Tree)>,
    body: Tree,
    keys: Seq<Seq<char>>,
    key: Seq<char>,
)
    ensures
        json::lookup(images::with_options(entries, body, keys), key) == (if keys.contains(key)
            && body.get(key) is Some && body.get(key) != Some(Tree::Null) {
            body.get(key)
        } else {
            json::lookup(entries, key)
        }),
    decreases keys.len(),
{
    if keys.len() > 0 {
        let fewer = keys.drop_last();
        lemma_options(entries, body, fewer, key);
        assert(keys.contains(key) == (fewer.contains(key) || keys.last() == key)) by {
            if keys.contains(key) {
                let i = choose|i: int| 0 <= i < keys.len() && keys[i] == key;
                if i < fewer.len() {
                    assert(fewer[i] == key);
                }
            }
            if fewer.contains(key) {
                let i = choose|i: int| 0 <= i < fewer.len() && fewer[i] == key;
                assert(keys[i] == key);
            }
            assert(keys[keys.len() - 1] == keys.last());
        }
        let before = images::with_options(entries, body, fewer);
        if let Some(value) = body.get(keys.last()) {
            if !(value is Null) {
                json::lookup_after_with_entry(before, keys.last(), value, key);
            }
        }
    }
}

/// The tool for a request.
proof fn lemma_tool(body: Tree, key: Seq<char>)
    ensures
        is_option(key) ==> images::image_tool(body).get(key) == (if body.get(key) == Some(
            Tree::Null,
        ) {
            None
        } else {
            body.get(key)
        }),
        key != "type"@ && !is_option(key) ==> images::image_tool(body).get(key) is None,
{
    reveal_strlit("type");
    reveal_strlit("size");
    reveal_strlit("quality");
    reveal_strlit("background");
    reveal_strlit("output_format");
    reveal_strlit("output_compression");
    reveal_strlit("partial_images");
    assert("type"@.len() == 4 && "type"@[0] == 't' && "size"@[0] == 's');
    assert("quality"@.len() == 7 && "background"@.len() == 10 && "output_format"@.len() == 13
        && "output_compression"@.len() == 18 && "partial_images"@.len() == 14);
    let keys = images::tool_options();
    assert(keys.contains(key) == is_option(key)) by {
        if keys.contains(key) {
            let i = choose|i: int| 0 <= i < keys.len() && keys[i] == key;
            assert(i == 0 || i == 1 || i == 2 || i == 3 || i == 4 || i == 5);
        }
        assert(keys[0] == "size"@ && keys[1] == "quality"@ && keys[2] == "background"@ && keys[3]
            == "output_format"@ && keys[4] == "output_compression"@ && keys[5]
            == "partial_images"@);
    }
    let start = seq![("type"@, Tree::Text("image_generation"@))];
    lemma_options(json::entries_of(start), body, keys, key);
    if key != "type"@ {
        json::only_members_of_object(start, key);
    }
}

/// What a request for images to the upstream holds.
proof fn lemma_makes_images(input: Tree, body: Tree)
    ensures
        makes_images(images::image_request(input, images::image_tool(body)), body),
{
    let tool = images::image_tool(body);
    images::image_request_asks_for_the_input(input, tool);
    images::image_tool_makes_images(body);
    let request = images::image_request(input, tool);
    assert forall|key: Seq<char>| is_option(key) implies #[trigger] tool.get(key) == (
    if body.get(key) == Some(Tree::Null) {
        None
    } else {
        body.get(key)
    }) by {
        lemma_tool(body, key);
    }
    assert forall|key: Seq<char>| key != "type"@ && !is_option(key) implies #[trigger] tool.get(
        key,
    ) is None by {
        lemma_tool(body, key);
    }
    let tools = seq![tool];
    assert(request.get("tools"@) == Some(Tree::Array(tools)));
    assert(tools[0] == tool);
}

/// A request for a new image is accepted exactly where it names the model for images, or none, and
/// has a prompt. The upstream is then asked for just that prompt, with the options of the request.
pub proof fn generation_asks_for_the_prompt(body: Tree)
    ensures
        ({
            let outcome = images::generation_request(body);
            let other_model = body.get_text("model"@) is Some && body.get_text("model"@) != Some(
                images::CODEX_IMAGE_MODEL_ID@,
            );
            let prompt = body.get_text("prompt"@);
            &&& outcome is Ok == (!other_model && prompt is Some)
            &&& outcome matches Ok(request) ==> request.get_text("input"@) == prompt
                && makes_images(request, body)
            &&& outcome matches Err(message) ==> if other_model {
                message == "unsupported image model "@ + body.get_text("model"@).unwrap()
                    + "; expected "@ + images::CODEX_IMAGE_MODEL_ID@
            } else {
                message == "images/generations missing prompt"@
            }
        }),
{
    if let Some(prompt) = body.get_text("prompt"@) {
        lemma_makes_images(Tree::Text(prompt), body);
        images::image_request_asks_for_the_input(Tree::Text(prompt), images::image_tool(body));
    }
}

/// The format of the answer is the one that the request asks for by either name, the first before
/// the other, where that is a text; else it is data.
pub proof fn answer_has_the_wanted_format(body: Tree)
    ensures
        body.get_text("response_format"@) matches Some(format) ==> images::wanted_format(body)
            == format,
        body.get("response_format"@) is None ==> (body.get_text("output_format"@) matches Some(
            format,
        ) ==> images::wanted_format(body) == format),
        body.get_text("response_format"@) is None && (body.get("response_format"@) is Some
            || body.get_text("output_format"@) is None) ==> images::wanted_format(body)
            == "b64_json"@,
{
}

/// Whether an item of a request names an image, as a text or in an object.
pub open spec fn names_image(item: Tree, url: Seq<char>) -> bool {
    ||| item.get_text("image_url"@) == Some(url)
    ||| item.get("image_url"@) matches Some(value) && value.get_text("url"@) == Some(url)
}

/// Whether `urls` are what the items at the places `at` name, in order, and no other item names
/// any.
pub open spec fn are_named(items: Seq<Tree>, at: Seq<int>, urls: Seq<Seq<char>>) -> bool {
    &&& at.len() == urls.len()
    &&& forall|k: int|
        0 <= k < at.len() ==> 0 <= #[trigger] at[k] < items.len() && names_image(
            items[at[k]],
            urls[k],
        )
    &&& forall|k: int, l: int| 0 <= k < l < at.len() ==> #[trigger] at[k] < #[trigger] at[l]
    &&& forall|i: int, url: Seq<char>|
        0 <= i < items.len() && #[trigger] names_image(items[i], url) ==> at.contains(i)
}

/// The images that items name, in order.
proof fn lemma_named(items: Seq<Tree>, at: Seq<int>, urls: Seq<Seq<char>>)
    requires
        are_named(items, at, urls),
    ensures
        images::item_images(items) == urls,
    decreases items.len(),
{
    if items.len() == 0 {
        if at.len() > 0 {
            assert(0 <= at[0] < items.len());
        }
        assert(urls =~= Seq::<Seq<char>>::empty());
    } else {
        let n = items.len() - 1;
        let fewer = items.drop_last();
        match images::item_image(items[n]) {
            Some(url) => {
                assert(names_image(items[n], url));
                assert(at.contains(n));
                let k = choose|k: int| 0 <= k < at.len() && at[k] == n;
                if k < at.len() - 1 {
                    assert(at[k] < at[at.len() - 1]);
                }
                let less = at.drop_last();
                let before = urls.drop_last();
                assert(are_named(fewer, less, before)) by {
                    assert forall|k: int| 0 <= k < less.len() implies 0 <= #[trigger] less[k]
                        < fewer.len() && names_image(fewer[less[k]], before[k]) by {
                        assert(less[k] == at[k]);
                        assert(at[k] < at[at.len() - 1]);
                    }
                    assert forall|i: int, url: Seq<char>|
                        0 <= i < fewer.len() && #[trigger] names_image(
                            fewer[i],
                            url,
                        ) implies less.contains(i) by {
                        assert(names_image(items[i], url));
                        let k = choose|k: int| 0 <= k < at.len() && at[k] == i;
                        assert(less[k] == i);
                    }
                }
                lemma_named(fewer, less, before);
                assert(names_image(items[at[k]], urls[k]));
                assert(urls =~= before.push(url));
            },
            None => {
                assert(are_named(fewer, at, urls)) by {
                    assert forall|k: int| 0 <= k < at.len() implies 0 <= #[trigger] at[k]
                        < fewer.len() && names_image(fewer[at[k]], urls[k]) by {
                        assert(names_image(items[at[k]], urls[k]));
                    }
                    assert forall|i: int, url: Seq<char>|
                        0 <= i < fewer.len() && #[trigger] names_image(
                            fewer[i],
                            url,
                        ) implies at.contains(i) by {
                        assert(names_image(items[i], url));
                    }
                }
                lemma_named(fewer, at, urls);
            },
        }
    }
}

/// A request to edit images that is no form and names the model for images, or none, a prompt and
/// at least one image, by itself or in its list, is accepted; the upstream is then shown the prompt
/// and every image, the one by itself first.
pub proof fn json_edit_sends_every_image(
    headers: Seq<HeaderView>,
    bytes: Seq<u8>,
    body: Tree,
    prompt: Seq<char>,
    one: Seq<Seq<char>>,
    items: Seq<Tree>,
    at: Seq<int>,
    urls: Seq<Seq<char>>,
)
    requires
        http::header_text(headers, "content-type"@) matches Some(content_type)
            ==> !"multipart/form-data"@.is_prefix_of(text::lowercase(content_type)),
        json::parsed(bytes) == Some(body),
        body.get_text("model"@) is None || body.get_text("model"@) == Some(
            images::CODEX_IMAGE_MODEL_ID@,
        ),
        body.get_text("prompt"@) == Some(prompt),
        match body.get_text("image"@) {
            Some(image) => one == seq![image],
            None => one.len() == 0,
        },
        match body.get("images"@) {
            Some(Tree::Array(list)) => items == list,
            _ => items.len() == 0,
        },
        are_named(items, at, urls),
        one.len() + urls.len() > 0,
    ensures
        ({
            &&& images::edit_outcome(headers, bytes) matches Ok(edit)
            &&& forms::shows_images(edit.request, prompt, one + urls)
            &&& makes_images(edit.request, body)
            &&& edit.format == images::wanted_format(body)
        }),
{
    lemma_named(items, at, urls);
    assert(images::edit_images(body) =~= one + urls);
    lemma_not_a_form();
    forms::lemma_shows_images(prompt, one + urls, images::image_tool(body));
    lemma_makes_images(
        Tree::Array(seq![images::user_message(prompt, one + urls)]),
        body,
    );
}

/// A request without a content type is no form.
proof fn lemma_not_a_form()
    ensures
        !images::is_form(Seq::empty()),
{
    reveal_strlit("multipart/form-data");
    assert("multipart/form-data"@.len() == 19);
    assert(text::lowercase(Seq::empty()).len() == 0);
}

/// A request to edit images that is no form is refused where it is no JSON, names another model,
/// has no prompt or names no image, and it is told which.
pub proof fn other_json_edits_are_refused(headers: Seq<HeaderView>, bytes: Seq<u8>)
    requires
        http::header_text(headers, "content-type"@) matches Some(content_type)
            ==> !"multipart/form-data"@.is_prefix_of(text::lowercase(content_type)),
    ensures
        ({
            let outcome = images::edit_outcome(headers, bytes);
            match json::parsed(bytes) {
                None => outcome matches Err(message) && message
                    == "images/edits body must be JSON or multipart"@,
                Some(body) => {
                    let other_model = body.get_text("model"@) is Some && body.get_text("model"@)
                        != Some(images::CODEX_IMAGE_MODEL_ID@);
                    let no_list = match body.get("images"@) {
                        Some(Tree::Array(items)) => forall|i: int, url: Seq<char>|
                            0 <= i < items.len() ==> !#[trigger] names_image(items[i], url),
                        _ => true,
                    };
                    let no_image = no_list && body.get_text("image"@) is None;
                    if other_model {
                        outcome matches Err(message) && message == "unsupported image model "@
                            + body.get_text("model"@).unwrap() + "; expected "@
                            + images::CODEX_IMAGE_MODEL_ID@
                    } else if body.get_text("prompt"@) is None {
                        outcome matches Err(message) && message == "images/edits missing prompt"@
                    } else {
                        no_image ==> (outcome matches Err(message) && message
                            == "images/edits missing image or images[].image_url"@)
                    }
                },
            }
        }),
{
    lemma_not_a_form();
    if let Some(body) = json::parsed(bytes) {
        if let Some(Tree::Array(items)) = body.get("images"@) {
            if forall|i: int, url: Seq<char>|
                0 <= i < items.len() ==> !#[trigger] names_image(items[i], url) {
                lemma_named(items, Seq::empty(), Seq::empty());
            }
        }
    }
}

/// A form to edit images makes them with the options that its fields give, of those with one name
/// the last, and is answered in the format that they ask for.
pub proof fn form_edit_keeps_the_options(
    headers: Seq<HeaderView>,
    boundary: Seq<char>,
    items: Seq<forms::FormItem>,
    at: Seq<int>,
    p: int,
    key: Seq<char>,
)
    requires
        forms::is_boundary(boundary),
        http::header_text(headers, "content-type"@) == Some(
            "multipart/form-data; boundary="@ + boundary,
        ),
        forall|i: int|
            0 <= i < items.len() ==> forms::is_writable(
                #[trigger] items[i],
                crate::gateway::multipart::marker_of(boundary),
            ),
        forms::are_images_at(items, at),
        at.len() > 0,
        forms::is_last_field(items, "prompt"@, p),
    ensures
        ({
            let body = crate::gateway::multipart::written_form(
                crate::gateway::multipart::marker_of(boundary),
                forms::items_written(items),
            );
            &&& images::edit_outcome(headers, body) matches Ok(edit)
            &&& edit.request.get("tools"@) matches Some(Tree::Array(tools))
            &&& tools.len() == 1
            &&& tools[0].get_text("type"@) == Some("image_generation"@)
            &&& forall|q: int| #[trigger]
                forms::is_last_field(items, key, q) && is_option(key) ==> tools[0].get_text(key)
                    == Some(forms::field_text(items[q]))
            &&& forall|q: int| #[trigger]
                forms::is_last_field(items, "response_format"@, q) ==> edit.format
                    == forms::field_text(items[q])
        }),
{
    let marker = crate::gateway::multipart::marker_of(boundary);
    let form = crate::gateway::multipart::written_content(forms::items_written(items));
    let fields = Tree::Object(form.fields);
    forms::form_edit_sends_every_image(headers, boundary, items, at, p);
    forms::lemma_form(headers, boundary, items);
    forms::lemma_images(items, marker, at);
    reveal_strlit("prompt");
    reveal_strlit("image");
    reveal_strlit("images");
    reveal_strlit("response_format");
    reveal_strlit("size");
    reveal_strlit("quality");
    reveal_strlit("background");
    reveal_strlit("output_format");
    reveal_strlit("output_compression");
    reveal_strlit("partial_images");
    assert("prompt"@[0] == 'p' && "image"@[0] == 'i' && "images"@[0] == 'i'
        && "response_format"@[0] == 'r');
    assert("size"@[0] == 's' && "quality"@[0] == 'q' && "background"@[0] == 'b'
        && "output_format"@[0] == 'o' && "output_compression"@[0] == 'o' && "partial_images"@[0]
        == 'p');
    forms::lemma_field(items, marker, "prompt"@);
    forms::lemma_field(items, marker, "response_format"@);
    if is_option(key) {
        forms::lemma_field(items, marker, key);
    }
    lemma_tool(fields, key);
    let prompt = forms::field_text(items[p]);
    lemma_makes_images(
        Tree::Array(seq![images::user_message(prompt, form.images)]),
        fields,
    );
}

} // verus!
