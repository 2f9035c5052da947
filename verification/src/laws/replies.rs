//! What becomes of a reply of the upstream.
use crate::gateway::answer;
use crate::gateway::answer::{AdapterView, AnswerView};
use crate::gateway::chat;
use crate::gateway::http;
use crate::gateway::http::ReplyView;
use crate::gateway::probe;
use crate::json;
use crate::json::Tree;
use crate::laws::answers;
use crate::laws::texts;
use crate::outside;
use crate::text;
use vstd::prelude::*;

verus! {

/// A reply is passed on as it is, byte for byte, where no other form of it is wanted, and where it
/// does not say that the request went well.
pub proof fn reply_is_passed_on_as_it_is(
    reply: AnswerView,
    adapter: AdapterView,
    spare_id: Seq<char>,
    now: int,
)
    requires
        adapter is Passthrough || reply.status < 200 || reply.status >= 300,
    ensures
        answer::adapted(reply, adapter, spare_id, now) == (ReplyView::Bytes {
            status: reply.status,
            content_type: reply.content_type,
            body: reply.body,
        }),
{
}

/// A response is told by its own identifier, or by that of the response in it.
pub open spec fn is_told_by(response: Tree, id: Seq<char>) -> bool {
    ||| response.get_text("id"@) == Some(id)
    ||| response.get_text("id"@) is None && (response.get("response"@) matches Some(inner)
        && inner.get_text("id"@) == Some(id))
}

/// Where a chat is wanted, a response becomes a completion: of that response, from that model, made
/// now, with the one choice and the count of what was used. What is no JSON becomes an error.
pub proof fn response_becomes_a_completion(
    reply: AnswerView,
    spare_id: Seq<char>,
    now: int,
)
    requires
        200 <= reply.status < 300,
    ensures
        match json::json_parsed(reply.body) {
            Ok(response) => exists|id: Seq<char>|
                {
                    let completion = #[trigger] answer::chat_completion(response, id, now);
                    &&& answer::adapted(reply, AdapterView::ChatCompletions, spare_id, now) == (
                    ReplyView::Json { status: 200, body: json::json_printed(completion) })
                    &&& is_told_by(response, id) || ((forall|other: Seq<char>|
                        !is_told_by(response, other)) && id == "chatcmpl-"@ + spare_id)
                    &&& completion.get_text("id"@) == Some(id)
                    &&& completion.get_text("object"@) == Some("chat.completion"@)
                    &&& completion.get("created"@) == Some(Tree::Integer(now))
                    &&& completion.get("model"@) == match response.get("model"@) {
                        Some(model) => Some(model),
                        None => Some(Tree::Text(chat::DEFAULT_MODEL@)),
                    }
                    &&& completion.get("usage"@) == match response.get("usage"@) {
                        Some(usage) => Some(usage),
                        None => Some(Tree::Null),
                    }
                    &&& answers::said(completion) is Some
                    &&& completion.get("choices"@) matches Some(Tree::Array(choices))
                    &&& choices[0].get("index"@) == Some(Tree::Integer(0))
                    &&& choices[0].get_text("finish_reason"@) == Some("stop"@)
                    &&& choices[0].get("message"@) matches Some(message)
                    &&& message.get_text("role"@) == Some("assistant"@)
                },
            Err(error) => answer::adapted(reply, AdapterView::ChatCompletions, spare_id, now)
                == http::error_reply(502, "parse upstream chat payload failed: "@ + error),
        },
{
    if let Ok(response) = json::json_parsed(reply.body) {
        let id = answer::completion_id(response, spare_id);
        let completion = answer::chat_completion(response, id, now);
        answer::chat_completion_says_the_text(response, id, now);
        reveal_strlit("id");
        reveal_strlit("object");
        reveal_strlit("created");
        reveal_strlit("model");
        reveal_strlit("choices");
        reveal_strlit("usage");
        reveal_strlit("index");
        reveal_strlit("message");
        reveal_strlit("finish_reason");
        assert("id"@.len() == 2 && "object"@.len() == 6 && "created"@.len() == 7 && "model"@.len()
            == 5 && "choices"@.len() == 7 && "usage"@.len() == 5);
        assert("created"@[1] == 'r' && "choices"@[1] == 'h' && "model"@[0] == 'm' && "usage"@[0]
            == 'u');
        assert("index"@.len() == 5 && "message"@.len() == 7 && "finish_reason"@.len() == 13);
        let s = answer::output_text(response);
        let choice = seq![
            ("index"@, Tree::Integer(0)),
            ("message"@, answer::assistant_message(s)),
            ("finish_reason"@, Tree::Text("stop"@)),
        ];
        json::member_of_object(choice, 0);
        json::member_of_object(choice, 1);
        json::member_of_object(choice, 2);
        let pairs = seq![
            ("id"@, Tree::Text(id)),
            ("object"@, Tree::Text("chat.completion"@)),
            ("created"@, Tree::Integer(now)),
            (
                "model"@,
                answer::member_or(response, "model"@, Tree::Text(chat::DEFAULT_MODEL@)),
            ),
            ("choices"@, Tree::Array(seq![answer::only_choice(s)])),
            ("usage"@, answer::member_or(response, "usage"@, Tree::Null)),
        ];
        json::member_of_object(pairs, 0);
        json::member_of_object(pairs, 1);
        json::member_of_object(pairs, 2);
        json::member_of_object(pairs, 3);
        json::member_of_object(pairs, 4);
        json::member_of_object(pairs, 5);
        assert(completion == json::object(pairs));
        if answer::response_id(response) is None {
            assert forall|other: Seq<char>| !is_told_by(response, other) by {}
        }
    }
}

/// Where images are wanted, a response becomes the list of its images, made now. What is no JSON
/// becomes an error.
pub proof fn response_becomes_a_list_of_images(
    reply: AnswerView,
    format: Seq<char>,
    spare_id: Seq<char>,
    now: int,
)
    requires
        200 <= reply.status < 300,
    ensures
        ({
            let wanted = AdapterView::Images { response_format: format };
            match json::json_parsed(reply.body) {
                Ok(response) => {
                    let list = answer::image_list(response, format, now);
                    &&& answer::adapted(reply, wanted, spare_id, now) == (ReplyView::Json {
                        status: 200,
                        body: json::json_printed(list),
                    })
                    &&& list.get("created"@) == Some(Tree::Integer(now))
                    &&& list.get("data"@) == Some(Tree::Array(answers::listed(list)))
                },
                Err(error) => answer::adapted(reply, wanted, spare_id, now) == http::error_reply(
                    502,
                    "parse upstream image payload failed: "@ + error,
                ),
            }
        }),
{
    if let Ok(response) = json::json_parsed(reply.body) {
        answers::lemma_listed(response, format, now);
    }
}

/// Which account gave a response is remembered where it went well and can be followed: under the
/// identifier of the response, or of the one in it. Images are not followed.
pub proof fn response_is_remembered_by_its_identifier(
    reply: AnswerView,
    adapter: AdapterView,
    id: Seq<char>,
)
    ensures
        (answer::remembered(reply, adapter) == Some(id)) == ({
            &&& 200 <= reply.status < 300
            &&& !(adapter is Images)
            &&& json::parsed(reply.body) matches Some(response)
            &&& is_told_by(response, id)
        }),
{
}

/// The response that a request follows is the one that it names.
pub proof fn request_follows_the_response_it_names(body: Seq<u8>)
    ensures
        answer::followed_response(body) == match json::parsed(body) {
            Some(tree) => tree.get_text("previous_response_id"@),
            None => None,
        },
{
}

/// The error of the upstream is told in its own words: the message of its error, the error itself
/// where it is a text, the message beside it, or the whole reply. Only where it says nothing does
/// the status stand for it.
pub proof fn upstream_error_is_told_in_its_words(status: u16, body: Seq<char>)
    ensures
        ({
            let told = answer::upstream_error_text(status, body);
            let reply = json::parsed(text::utf8(body));
            let error = match reply {
                Some(tree) => tree.get("error"@),
                None => None,
            };
            let detail = match error {
                Some(error) => error.get_text("message"@),
                None => None,
            };
            let bare = match error {
                Some(Tree::Text(s)) => Some(s),
                _ => None,
            };
            let beside = match reply {
                Some(tree) => tree.get_text("message"@),
                None => None,
            };
            &&& detail matches Some(s) ==> told == s
            &&& bare matches Some(s) ==> told == s
            &&& detail is None && bare is None ==> (beside matches Some(s) ==> told == s)
            &&& detail is None && bare is None && beside is None && text::trimmed(body).len() > 0
                ==> told == body
            &&& detail is None && bare is None && beside is None && text::trimmed(body).len() == 0
                ==> told == "upstream returned "@ + text::decimal(status as nat) + seq![' ']
                + outside::reason_phrase(status)
        }),
{
    assert("upstream returned "@ + (text::decimal(status as nat) + seq![' ']
        + outside::reason_phrase(status)) =~= "upstream returned "@ + text::decimal(status as nat)
        + seq![' '] + outside::reason_phrase(status));
}

/// A probe asks the given model for one word, at once and without keeping it.
pub proof fn probe_asks_the_model(model: Seq<char>)
    ensures
        probe::test_question(model).get_text("model"@) == Some(model),
        probe::test_question(model).get_text("input"@) == Some("Reply with exactly: pong"@),
        probe::test_question(model).get("stream"@) == Some(Tree::Bool(false)),
        probe::test_question(model).get("store"@) == Some(Tree::Bool(false)),
{
    reveal_strlit("model");
    reveal_strlit("stream");
    reveal_strlit("store");
    reveal_strlit("input");
    assert("model"@[0] == 'm' && "stream"@.len() == 6 && "store"@.len() == 5 && "store"@[0] == 's'
        && "input"@[0] == 'i' && "model"@.len() == 5 && "input"@.len() == 5);
    let pairs = seq![
        ("model"@, Tree::Text(model)),
        ("stream"@, Tree::Bool(false)),
        ("store"@, Tree::Bool(false)),
        ("input"@, Tree::Text("Reply with exactly: pong"@)),
    ];
    json::member_of_object(pairs, 0);
    json::member_of_object(pairs, 1);
    json::member_of_object(pairs, 2);
    json::member_of_object(pairs, 3);
}

/// A probe that went well has what the gateway says as its output; another one has the whole reply
/// as its error. Both have the status.
pub proof fn probe_tells_what_came_back(status: u16, body: Seq<char>, id: Seq<char>, now: int)
    ensures
        ({
            let outcome = probe::probed(status, body);
            &&& outcome.ok == (200 <= status < 300)
            &&& outcome.status == Some(status)
            &&& !outcome.ok ==> outcome.error == Some(body) && outcome.output is None
            &&& outcome.ok ==> outcome.error is None
            &&& outcome.ok ==> match json::json_parsed(text::utf8(body)) {
                Ok(response) => outcome.output == answers::said(
                    answer::chat_completion(response, id, now),
                ),
                Err(_) => outcome.output == Some(body),
            }
        }),
{
    answers::probe_shows_what_is_said(body, id, now);
}

/// A probe asks for a response, at the address of the gateway without slashes at its end.
pub proof fn probe_asks_for_a_response(base: Seq<char>, slashes: Seq<char>)
    requires
        base.len() == 0 || base.last() != '/',
        forall|i: int| 0 <= i < slashes.len() ==> #[trigger] slashes[i] == '/',
    ensures
        probe::probe_address(base + slashes) == base + "/v1/responses"@,
{
    let s = base + slashes;
    texts::only_the_character_is_taken_from_the_end(s, '/');
    let kept = text::trim_end_char(s, '/');
    if kept.len() > base.len() {
        assert(kept.last() == slashes[kept.len() - 1 - base.len()]);
    }
    if kept.len() < base.len() {
        assert(s[base.len() - 1] == base.last());
    }
    assert(kept =~= base);
}

} // verus!
