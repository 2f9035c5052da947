//! What the gateway lets in, and what it asks the upstream.
use crate::account::AccountView;
use crate::gateway::answer::AdapterView;
use crate::gateway::chat;
use crate::gateway::http;
use crate::gateway::http::{HeaderView, ReplyView};
use crate::gateway::images;
use crate::gateway::request;
use crate::gateway::request::{HandledView, RequestView};
use crate::json;
use crate::json::Tree;
use crate::text;
use vstd::prelude::*;

verus! {

/// Of the headers with one name, in whatever case, the first is read, and there is none where no
/// header has the name.
pub proof fn first_header_is_read(headers: Seq<HeaderView>, name: Seq<char>, i: int)
    requires
        0 <= i <= headers.len(),
        forall|j: int|
            0 <= j < i ==> text::lowercase((#[trigger] headers[j]).name) != text::lowercase(name),
        i < headers.len() ==> text::lowercase(headers[i].name) == text::lowercase(name),
    ensures
        http::header_value(headers, name) == (if i < headers.len() {
            Some(headers[i].value)
        } else {
            None
        }),
    decreases headers.len(),
{
    if headers.len() > 0 && i > 0 {
        let rest = headers.skip(1);
        assert(text::lowercase(headers[0].name) != text::lowercase(name));
        assert forall|j: int| 0 <= j < i - 1 implies text::lowercase((#[trigger] rest[j]).name)
            != text::lowercase(name) by {
            assert(rest[j] == headers[j + 1]);
        }
        first_header_is_read(rest, name, i - 1);
    }
}

/// A header is read as text, byte for byte, just where all its bytes are printable ASCII or tabs.
pub proof fn printable_header_is_text(headers: Seq<HeaderView>, name: Seq<char>, value: Seq<u8>)
    requires
        http::header_value(headers, name) == Some(value),
    ensures
        match http::header_text(headers, name) {
            Some(s) => s.len() == value.len() && forall|i: int|
                0 <= i < s.len() ==> #[trigger] s[i] as u8 == value[i] && (' ' <= s[i] <= '~'
                    || s[i] == '\t'),
            None => exists|i: int|
                0 <= i < value.len() && (#[trigger] value[i] < 32 || value[i] > 126) && value[i]
                    != 9,
        },
{
    match http::header_text(headers, name) {
        Some(s) => {
            assert forall|i: int| 0 <= i < s.len() implies #[trigger] s[i] as u8 == value[i] && (
            ' ' <= s[i] <= '~' || s[i] == '\t') by {
                assert(http::is_visible(value[i]));
                assert(s[i] == value[i] as char);
            }
        },
        None => {
            let i = choose|i: int| 0 <= i < value.len() && !http::is_visible(#[trigger] value[i]);
            assert(!http::is_visible(value[i]));
        },
    }
}

/// The key is shown just where it follows the word for it in the header for authorization, or
/// stands in the header for keys; white space round it does not count.
pub proof fn only_the_key_is_shown(headers: Seq<HeaderView>, key: Seq<char>)
    ensures
        http::shows_key(headers, key) == ({
            ||| exists|rest: Seq<char>|
                text::trimmed(rest) == key && (http::header_text(headers, "authorization"@) == Some(
                    #[trigger] ("Bearer "@ + rest),
                ) || http::header_text(headers, "authorization"@) == Some("bearer "@ + rest))
            ||| http::header_text(headers, "x-api-key"@) matches Some(value) && text::trimmed(value)
                == key
        }),
{
    reveal_strlit("Bearer ");
    reveal_strlit("bearer ");
    assert("Bearer "@.len() == 7 && "bearer "@.len() == 7 && "Bearer "@[0] == 'B' && "bearer "@[0]
        == 'b');
    if let Some(value) = http::header_text(headers, "authorization"@) {
        if "Bearer "@.is_prefix_of(value) || "bearer "@.is_prefix_of(value) {
            let rest = value.skip(7);
            if "Bearer "@.is_prefix_of(value) {
                assert(value =~= "Bearer "@ + rest);
            } else {
                assert(value =~= "bearer "@ + rest);
                assert(("Bearer "@ + rest).len() == value.len());
            }
        }
        if exists|rest: Seq<char>|
            text::trimmed(rest) == key && (http::header_text(headers, "authorization"@) == Some(
                #[trigger] ("Bearer "@ + rest),
            ) || http::header_text(headers, "authorization"@) == Some("bearer "@ + rest)) {
            let rest = choose|rest: Seq<char>|
                text::trimmed(rest) == key && (http::header_text(headers, "authorization"@) == Some(
                    #[trigger] ("Bearer "@ + rest),
                ) || http::header_text(headers, "authorization"@) == Some("bearer "@ + rest));
            assert(value.skip(7) =~= rest);
            if value == "Bearer "@ + rest {
                assert(value.take(7) =~= "Bearer "@);
                assert("Bearer "@.is_prefix_of(value));
            } else {
                assert(value.take(7) =~= "bearer "@);
                assert("bearer "@.is_prefix_of(value));
                assert(value[0] == 'b');
                if "Bearer "@.is_prefix_of(value) {
                    assert("Bearer "@[0] == value[0]);
                }
            }
        }
    }
}

/// A target has a path where it is the path, or the path and a query behind a question mark.
pub proof fn query_is_no_part_of_the_path(target: Seq<char>, path: Seq<char>)
    ensures
        http::is_path(target, path) == (target == path || exists|query: Seq<char>|
            target == #[trigger] (path + seq!['?'] + query)),
{
    let start = path + seq!['?'];
    if start.is_prefix_of(target) {
        let query = target.skip(start.len() as int);
        assert(target =~= path + seq!['?'] + query);
    }
    if exists|query: Seq<char>| target == #[trigger] (path + seq!['?'] + query) {
        let query = choose|query: Seq<char>| target == #[trigger] (path + seq!['?'] + query);
        assert(target.take(start.len() as int) =~= start);
    }
}

/// The upstream is asked for what stands behind the version in a target.
pub proof fn path_behind_the_version_is_asked_for(path: Seq<char>)
    requires
        path.len() > 0,
        path[0] == '/',
        !"/v1"@.is_prefix_of(path),
    ensures
        http::upstream_path("/v1"@ + path) == Some(path),
{
    reveal_strlit("/v1");
    let target = "/v1"@ + path;
    assert(target.take(3) =~= "/v1"@);
    assert("/v1"@.is_prefix_of(target));
    assert(target.skip(3) =~= path);
    reveal_with_fuel(http::without_prefixes, 2);
}

/// A request for a chat is asked as one for a response: as a post with JSON that holds the chat. The
/// answer is made a completion.
pub proof fn chat_is_asked_as_a_response(asked: RequestView)
    requires
        http::is_path(asked.target, "/v1/chat/completions"@),
    ensures
        match request::prepared(asked) {
            Ok((sent, adapter)) => ({
                &&& asked.method == "POST"@
                &&& json::parsed(asked.body) matches Some(tree)
                &&& adapter == AdapterView::ChatCompletions
                &&& sent == (RequestView {
                    method: asked.method,
                    target: "/v1/responses"@,
                    headers: asked.headers,
                    body: json::json_printed(chat::chat_request(tree)),
                })
            }),
            Err(message) => if asked.method != "POST"@ {
                message == "chat/completions only supports POST"@
            } else {
                json::parsed(asked.body) is None && message == "chat/completions body must be JSON"@
            },
        },
{
}

/// The paths of the gateway differ.
proof fn lemma_paths(target: Seq<char>)
    ensures
        http::is_path(target, "/v1/images/generations"@) ==> !http::is_path(
            target,
            "/v1/chat/completions"@,
        ),
        http::is_path(target, "/v1/images/edits"@) ==> !http::is_path(
            target,
            "/v1/chat/completions"@,
        ) && !http::is_path(target, "/v1/images/generations"@),
        http::is_path(target, "/v1/responses"@) ==> !http::is_path(
            target,
            "/v1/chat/completions"@,
        ) && !http::is_path(target, "/v1/images/generations"@) && !http::is_path(
            target,
            "/v1/images/edits"@,
        ),
        http::is_path(target, "/v1/models"@) ==> "/v1/"@.is_prefix_of(target),
        http::is_path(target, "/v1/chat/completions"@) || http::is_path(
            target,
            "/v1/images/generations"@,
        ) || http::is_path(target, "/v1/images/edits"@) || http::is_path(target, "/v1/responses"@)
            ==> !http::is_path(target, "/v1/models"@),
{
    reveal_strlit("/v1/");
    reveal_strlit("/v1/chat/completions");
    reveal_strlit("/v1/images/generations");
    reveal_strlit("/v1/images/edits");
    reveal_strlit("/v1/responses");
    reveal_strlit("/v1/models");
    let a = "/v1/chat/completions"@;
    let b = "/v1/images/generations"@;
    let c = "/v1/images/edits"@;
    let d = "/v1/responses"@;
    let e = "/v1/models"@;
    assert(a[4] == 'c' && b[4] == 'i' && c[4] == 'i' && d[4] == 'r' && e[4] == 'm');
    assert(b[11] == 'g' && c[11] == 'e');
    lemma_path_starts(target, a);
    lemma_path_starts(target, b);
    lemma_path_starts(target, c);
    lemma_path_starts(target, d);
    lemma_path_starts(target, e);
    assert(http::is_path(target, a) ==> target[4] == 'c');
    assert(http::is_path(target, b) ==> target[4] == 'i' && target[11] == 'g');
    assert(http::is_path(target, c) ==> target[4] == 'i' && target[11] == 'e');
    assert(http::is_path(target, d) ==> target[4] == 'r');
    assert(http::is_path(target, e) ==> target[4] == 'm');
    if http::is_path(target, e) {
        assert(target[0] == e[0] && target[1] == e[1] && target[2] == e[2] && target[3] == e[3]);
        assert(target.take(4) =~= "/v1/"@);
    }
}

/// A target with a path starts with it.
proof fn lemma_path_starts(target: Seq<char>, path: Seq<char>)
    ensures
        http::is_path(target, path) ==> target.len() >= path.len() && forall|i: int|
            0 <= i < path.len() ==> #[trigger] target[i] == path[i],
{
    let start = path + seq!['?'];
    if http::is_path(target, path) && target != path {
        assert forall|i: int| 0 <= i < path.len() implies #[trigger] target[i] == path[i] by {
            assert(target.take(start.len() as int)[i] == start[i]);
        }
    }
}

/// A request for new images is asked as one for a response, as a post with JSON that makes them; the
/// answer is made a list in the wanted format. One that cannot be made is refused, and told why.
pub proof fn generation_is_asked_as_a_response(asked: RequestView)
    requires
        http::is_path(asked.target, "/v1/images/generations"@),
    ensures
        match request::prepared(asked) {
            Ok((sent, adapter)) => ({
                &&& asked.method == "POST"@
                &&& json::parsed(asked.body) matches Some(tree)
                &&& images::generation_request(tree) matches Ok(wanted)
                &&& adapter == AdapterView::Images {
                    response_format: images::wanted_format(tree),
                }
                &&& sent == (RequestView {
                    method: asked.method,
                    target: "/v1/responses"@,
                    headers: asked.headers,
                    body: json::json_printed(wanted),
                })
            }),
            Err(message) => if asked.method != "POST"@ {
                message == "images/generations only supports POST"@
            } else {
                match json::parsed(asked.body) {
                    Some(tree) => images::generation_request(tree) matches Err(reason) && message
                        == reason,
                    None => message == "images/generations body must be JSON"@,
                }
            },
        },
{
    lemma_paths(asked.target);
}

/// A request to edit images is asked as one for a response, as a post that makes them; the answer is
/// made a list in the wanted format. One that cannot be made is refused, and told why.
pub proof fn edit_is_asked_as_a_response(asked: RequestView)
    requires
        http::is_path(asked.target, "/v1/images/edits"@),
    ensures
        match request::prepared(asked) {
            Ok((sent, adapter)) => ({
                &&& asked.method == "POST"@
                &&& images::edit_outcome(asked.headers, asked.body) matches Ok(edit)
                &&& adapter == AdapterView::Images { response_format: edit.format }
                &&& sent == (RequestView {
                    method: asked.method,
                    target: "/v1/responses"@,
                    headers: asked.headers,
                    body: json::json_printed(edit.request),
                })
            }),
            Err(message) => if asked.method != "POST"@ {
                message == "images/edits only supports POST"@
            } else {
                images::edit_outcome(asked.headers, asked.body) matches Err(reason) && message
                    == reason
            },
        },
{
    lemma_paths(asked.target);
}

/// A request for a response goes on as it is, but for its body where that is JSON: there the alias
/// of a model is resolved and then the tool that makes images offered. The answer is passed on.
pub proof fn response_is_asked_for_with_defaults(asked: RequestView)
    requires
        http::is_path(asked.target, "/v1/responses"@),
    ensures
        request::prepared(asked) matches Ok((sent, adapter)) && adapter == AdapterView::Passthrough
            && sent == (RequestView {
            method: asked.method,
            target: asked.target,
            headers: asked.headers,
            body: match json::parsed(asked.body) {
                Some(tree) => if asked.body.len() > 0 {
                    json::json_printed(chat::with_image_tool(chat::with_model_alias(tree)))
                } else {
                    asked.body
                },
                None => asked.body,
            },
        }),
{
    lemma_paths(asked.target);
}

/// Any other request goes on as it is, and the answer is passed on.
pub proof fn other_requests_go_on_as_they_are(asked: RequestView)
    requires
        !http::is_path(asked.target, "/v1/chat/completions"@),
        !http::is_path(asked.target, "/v1/images/generations"@),
        !http::is_path(asked.target, "/v1/images/edits"@),
        !http::is_path(asked.target, "/v1/responses"@),
    ensures
        request::prepared(asked) matches Ok((sent, adapter)) && adapter == AdapterView::Passthrough
            && sent == asked,
{
}

/// What is asked for in advance is allowed, with nothing said; other methods than the two are not
/// allowed; another path is not found; without the key nothing is done; the models are listed; and
/// a request that cannot be made is a bad one. All others go on.
pub proof fn each_request_is_answered_as_it_should_be(asked: RequestView, key: Seq<char>)
    ensures
        ({
            let known = asked.method == "GET"@ || asked.method == "POST"@;
            let found = "/v1/"@.is_prefix_of(asked.target);
            let shown = http::shows_key(asked.headers, key);
            let lists = http::is_path(asked.target, "/v1/models"@);
            let done = request::handled(asked, key);
            &&& asked.method == "OPTIONS"@ ==> done == HandledView::Reply(ReplyView::NoContent)
            &&& asked.method != "OPTIONS"@ && !known ==> done == HandledView::Reply(
                http::error_reply(405, "Only GET and POST are allowed"@),
            )
            &&& known && !found ==> done == HandledView::Reply(http::error_reply(404, "Not Found"@))
            &&& known && found && !shown ==> done == HandledView::Reply(
                http::error_reply(401, "missing or invalid gateway API key"@),
            )
            &&& known && lists && shown ==> done == HandledView::Reply(
                http::json_reply(200, chat::models_list()),
            )
            &&& known && found && shown && !lists ==> match request::prepared(asked) {
                Ok((sent, adapter)) => done == HandledView::Forward { request: sent, adapter },
                Err(message) => done == HandledView::Reply(http::error_reply(400, message)),
            }
        }),
{
    reveal_strlit("OPTIONS");
    reveal_strlit("GET");
    reveal_strlit("POST");
    assert("OPTIONS"@.len() == 7 && "GET"@.len() == 3 && "POST"@.len() == 4);
    lemma_paths(asked.target);
}

/// An error is told with its message, its status and the kind of error that it is.
pub proof fn error_tells_message_and_status(status: u16, message: Seq<char>)
    ensures
        ({
            &&& http::error_tree(status, message).get("error"@) matches Some(error)
            &&& error.get_text("message"@) == Some(message)
            &&& error.get("code"@) == Some(Tree::Integer(status as int))
            &&& error.get_text("type"@) == Some("codex_gateway_error"@)
        }),
        http::error_reply(status, message) == (ReplyView::Json {
            status,
            body: json::json_printed(http::error_tree(status, message)),
        }),
{
    reveal_strlit("message");
    reveal_strlit("type");
    reveal_strlit("code");
    assert("message"@.len() == 7 && "type"@.len() == 4 && "code"@.len() == 4 && "type"@[0] == 't'
        && "code"@[0] == 'c');
    let inner = seq![
        ("message"@, Tree::Text(message)),
        ("type"@, Tree::Text("codex_gateway_error"@)),
        ("code"@, Tree::Integer(status as int)),
    ];
    json::member_of_object(inner, 0);
    json::member_of_object(inner, 1);
    json::member_of_object(inner, 2);
    json::member_of_object(seq![("error"@, json::object(inner))], 0);
}

/// Whether a header is the gateway's own business: the key, or what belongs to the one connection.
pub open spec fn is_own_header(name: Seq<char>) -> bool {
    let lower = text::lowercase(name);
    lower == "authorization"@ || lower == "x-api-key"@ || lower == "host"@ || lower
        == "content-length"@ || lower == "connection"@ || lower == "accept-encoding"@
}

/// Whether `at` are the places of all headers that go on, in order.
pub open spec fn go_on_at(headers: Seq<HeaderView>, at: Seq<int>) -> bool {
    &&& forall|k: int|
        0 <= k < at.len() ==> 0 <= #[trigger] at[k] < headers.len() && !is_own_header(
            headers[at[k]].name,
        )
    &&& forall|k: int, l: int| 0 <= k < l < at.len() ==> #[trigger] at[k] < #[trigger] at[l]
    &&& forall|i: int|
        0 <= i < headers.len() && !is_own_header((#[trigger] headers[i]).name) ==> at.contains(i)
}

/// The headers that go on, in order.
proof fn lemma_forwarded(headers: Seq<HeaderView>, at: Seq<int>)
    requires
        go_on_at(headers, at),
    ensures
        request::forwarded(headers) == Seq::new(at.len(), |k: int| headers[at[k]]),
    decreases headers.len(),
{
    let all = Seq::new(at.len(), |k: int| headers[at[k]]);
    if headers.len() == 0 {
        if at.len() > 0 {
            assert(0 <= at[0] < headers.len());
        }
        assert(all =~= Seq::<HeaderView>::empty());
    } else {
        let n = headers.len() - 1;
        let fewer = headers.drop_last();
        assert(headers.last() == headers[n]);
        if !is_own_header(headers[n].name) {
            assert(at.contains(n));
            let k = choose|k: int| 0 <= k < at.len() && at[k] == n;
            if k < at.len() - 1 {
                assert(at[k] < at[at.len() - 1]);
            }
            let less = at.drop_last();
            assert(go_on_at(fewer, less)) by {
                assert forall|k: int| 0 <= k < less.len() implies 0 <= #[trigger] less[k]
                    < fewer.len() && !is_own_header(fewer[less[k]].name) by {
                    assert(less[k] == at[k]);
                    assert(at[k] < at[at.len() - 1]);
                }
                assert forall|i: int| 0 <= i < fewer.len() && !is_own_header(
                    (#[trigger] fewer[i]).name,
                ) implies less.contains(i) by {
                    assert(headers[i] == fewer[i]);
                    let k = choose|k: int| 0 <= k < at.len() && at[k] == i;
                    assert(less[k] == i);
                }
            }
            lemma_forwarded(fewer, less);
            assert(all =~= Seq::new(less.len(), |k: int| fewer[less[k]]).push(headers[n]));
        } else {
            assert(go_on_at(fewer, at)) by {
                assert forall|k: int| 0 <= k < at.len() implies 0 <= #[trigger] at[k] < fewer.len()
                    && !is_own_header(fewer[at[k]].name) by {
                    assert(!is_own_header(headers[at[k]].name));
                }
                assert forall|i: int| 0 <= i < fewer.len() && !is_own_header(
                    (#[trigger] fewer[i]).name,
                ) implies at.contains(i) by {
                    assert(headers[i] == fewer[i]);
                }
            }
            lemma_forwarded(fewer, at);
            assert(all =~= Seq::new(at.len(), |k: int| fewer[at[k]]));
        }
    }
}

/// Whether `headers` hold a header with this name and text.
pub open spec fn says(headers: Seq<HeaderView>, name: Seq<char>, value: Seq<char>) -> bool {
    exists|i: int|
        0 <= i < headers.len() && #[trigger] headers[i] == (HeaderView {
            name,
            value: text::utf8(value),
        })
}

/// The upstream is asked what the client asked, at the address behind the version: by the same
/// method and with the same body. The headers of the client come first, in their order, but for
/// those that are the gateway's own business. Behind them come the headers of the account: its
/// token, who asks, and its number where it has one; and what the answer and the body are in, just
/// where the client does not say.
pub proof fn upstream_is_asked_the_same(
    asked: RequestView,
    base: Seq<char>,
    account: AccountView,
    path: Seq<char>,
    at: Seq<int>,
)
    requires
        asked.target == "/v1"@ + path,
        path.len() > 0,
        path[0] == '/',
        !"/v1"@.is_prefix_of(path),
        go_on_at(asked.headers, at),
    ensures
        ({
            &&& request::upstream_request(asked, base, account) matches Some(sent)
            &&& sent.method == asked.method
            &&& sent.body == asked.body
            &&& sent.url == base + path
            &&& sent.headers.len() >= at.len()
            &&& sent.headers.take(at.len() as int) == Seq::new(
                at.len(),
                |k: int| asked.headers[at[k]],
            )
            &&& ({
                let own = sent.headers.skip(at.len() as int);
                let no_accept = http::header_value(asked.headers, "accept"@) is None;
                let no_type = http::header_value(asked.headers, "content-type"@) is None
                    && asked.body.len() > 0;
                &&& says(own, "authorization"@, "Bearer "@ + text::trimmed(account.access_token))
                &&& says(own, "user-agent"@, request::DEFAULT_CODEX_USER_AGENT@)
                &&& says(own, "originator"@, request::DEFAULT_CODEX_ORIGINATOR@)
                &&& account.account_id matches Some(id) ==> says(own, "chatgpt-account-id"@, id)
                &&& no_accept ==> says(own, "accept"@, "application/json"@)
                &&& no_type ==> says(own, "content-type"@, "application/json"@)
                &&& own.len() == 3 + (if account.account_id is Some {
                    1int
                } else {
                    0
                }) + (if no_accept {
                    1int
                } else {
                    0
                }) + (if no_type {
                    1int
                } else {
                    0
                })
            })
        }),
{
    path_behind_the_version_is_asked_for(path);
    lemma_forwarded(asked.headers, at);
    let sent = request::upstream_request(asked, base, account).unwrap();
    let n = at.len() as int;
    let a = request::account_headers(account);
    let d = request::default_headers(asked);
    let own = sent.headers.skip(n);
    assert(own =~= a + d);
    assert(sent.headers.take(n) =~= request::forwarded(asked.headers));
    assert(own[0] == a[0] && own[1] == a[1] && own[2] == a[2]);
    assert(a[0] == (HeaderView {
        name: "authorization"@,
        value: text::utf8("Bearer "@ + text::trimmed(account.access_token)),
    }));
    assert(a[1] == (HeaderView {
        name: "user-agent"@,
        value: text::utf8(request::DEFAULT_CODEX_USER_AGENT@),
    }));
    assert(a[2] == (HeaderView {
        name: "originator"@,
        value: text::utf8(request::DEFAULT_CODEX_ORIGINATOR@),
    }));
    if let Some(id) = account.account_id {
        assert(own[3] == a[3]);
    }
    if d.len() > 0 {
        assert(own[a.len() as int] == d[0]);
    }
    if d.len() > 1 {
        assert(own[a.len() as int + 1] == d[1]);
    }
}

/// Which statuses say that a request went well, and after which another account is tried.
pub proof fn statuses_are_read_as_they_should_be(status: u16)
    ensures
        http::is_success(status) == (status / 100 == 2),
        http::is_retryable(status) ==> !http::is_success(status),
        http::is_retryable(status) == (status == 401 || status == 403 || status == 408 || status
            == 429 || status == 500 || 502 <= status <= 504),
{
}

} // verus!
