//! Requests: what they ask of the upstream, and how they are sent there.
use crate::account::{Account, AccountView};
use crate::gateway::answer;
use crate::gateway::answer::{AdapterView, ResponseAdapter};
use crate::gateway::chat;
use crate::gateway::http;
use crate::gateway::http::{Header, HeaderView, HttpReply, ReplyView};
use crate::gateway::images;
use crate::json;
use crate::json::{Json, Tree};
use crate::text;
use vstd::prelude::*;

verus! {

/// The client that the upstream is shown.
pub const DEFAULT_CODEX_USER_AGENT: &'static str = "codex-tui/0.118.0 (Linux; x86_64) cockpit-codex-cli/0.1.0";

/// The originator that the upstream is shown.
pub const DEFAULT_CODEX_ORIGINATOR: &'static str = "codex-tui";

/// Where a response is asked for.
pub const RESPONSES_PATH: &'static str = "/v1/responses";

/// Where a chat completion is asked for.
pub const CHAT_COMPLETIONS_PATH: &'static str = "/v1/chat/completions";

/// Where a new image is asked for.
pub const IMAGES_GENERATIONS_PATH: &'static str = "/v1/images/generations";

/// Where an edited image is asked for.
pub const IMAGES_EDITS_PATH: &'static str = "/v1/images/edits";

/// A request to the gateway.
#[derive(Debug)]
pub struct ParsedGatewayRequest {
    pub method: String,
    pub target: String,
    pub headers: Vec<Header>,
    pub body: Vec<u8>,
}

/// What a request is.
pub struct RequestView {
    pub method: Seq<char>,
    pub target: Seq<char>,
    pub headers: Seq<HeaderView>,
    pub body: Seq<u8>,
}

impl View for ParsedGatewayRequest {
    type V = RequestView;

    open spec fn view(&self) -> RequestView {
        RequestView {
            method: self.method@,
            target: self.target@,
            headers: http::header_views(self.headers@),
            body: self.body@,
        }
    }
}

impl RequestView {
    /// This request, as one for the response that `tree` asks for.
    pub open spec fn asking(self, tree: Tree) -> RequestView {
        RequestView { target: RESPONSES_PATH@, body: json::json_printed(tree), ..self }
    }
}

/// What a request for a response asks of the upstream: under the names that the upstream knows, and
/// with a tool that makes images.
pub open spec fn with_defaults(tree: Tree) -> Tree {
    chat::with_image_tool(chat::with_model_alias(tree))
}

/// What a request asks of the upstream and what becomes of the answer, or why it is refused.
pub open spec fn prepared(request: RequestView) -> Result<(RequestView, AdapterView), Seq<char>> {
    if http::is_path(request.target, CHAT_COMPLETIONS_PATH@) {
        if request.method != "POST"@ {
            Err("chat/completions only supports POST"@)
        } else {
            match json::json_parsed(request.body) {
                Ok(tree) => Ok(
                    (request.asking(chat::chat_request(tree)), AdapterView::ChatCompletions),
                ),
                Err(_) => Err("chat/completions body must be JSON"@),
            }
        }
    } else if http::is_path(request.target, IMAGES_GENERATIONS_PATH@) {
        if request.method != "POST"@ {
            Err("images/generations only supports POST"@)
        } else {
            match json::json_parsed(request.body) {
                Ok(tree) => match images::generation_request(tree) {
                    Ok(wanted) => Ok(
                        (
                            request.asking(wanted),
                            AdapterView::Images { response_format: images::wanted_format(tree) },
                        ),
                    ),
                    Err(message) => Err(message),
                },
                Err(_) => Err("images/generations body must be JSON"@),
            }
        }
    } else if http::is_path(request.target, IMAGES_EDITS_PATH@) {
        if request.method != "POST"@ {
            Err("images/edits only supports POST"@)
        } else {
            match images::edit_outcome(request.headers, request.body) {
                Ok(edit) => Ok(
                    (
                        request.asking(edit.request),
                        AdapterView::Images { response_format: edit.format },
                    ),
                ),
                Err(message) => Err(message),
            }
        }
    } else if http::is_path(request.target, RESPONSES_PATH@) && request.body.len() > 0 {
        match json::json_parsed(request.body) {
            Ok(tree) => Ok(
                (
                    RequestView { body: json::json_printed(with_defaults(tree)), ..request },
                    AdapterView::Passthrough,
                ),
            ),
            Err(_) => Ok((request, AdapterView::Passthrough)),
        }
    } else {
        Ok((request, AdapterView::Passthrough))
    }
}

/// This request, as one for the response that `wanted` asks for.
fn redirect(request: ParsedGatewayRequest, wanted: &Json) -> (r: ParsedGatewayRequest)
    ensures
        r@ == request@.asking(wanted@),
{
    ParsedGatewayRequest {
        method: request.method,
        target: RESPONSES_PATH.to_owned(),
        headers: request.headers,
        body: json::print_json(wanted),
    }
}

/// What a request asks of the upstream and what becomes of the answer, or why it is refused. A
/// request that is passed on follows on the same response as before, where its body has no key that
/// `serde_json` has for its own use and can still be read; it can where every number is an integer.
pub fn prepare_gateway_request(request: ParsedGatewayRequest) -> (r: Result<
    (ParsedGatewayRequest, ResponseAdapter),
    String,
>)
    ensures
        match r {
            Ok((ready, adapter)) => prepared(request@) matches Ok(wanted) && wanted == (
                ready@,
                adapter@,
            ),
            Err(message) => prepared(request@) matches Err(wanted) && wanted == message@,
        },
        match r {
            Ok((ready, ResponseAdapter::Passthrough)) => (json::parsed(
                request@.body,
            ) matches Some(tree) ==> json::is_plain(tree) || (json::raw_free(tree) && json::parsed(
                ready@.body,
            ) is Some)) ==> answer::followed_response(ready@.body) == answer::followed_response(
                request@.body,
            ),
            _ => true,
        },
{
    let is_post: bool = text::same_text(request.method.as_str(), "POST");
    if http::path_is(request.target.as_str(), CHAT_COMPLETIONS_PATH) {
        if !is_post {
            return Err("chat/completions only supports POST".to_owned());
        }
        let body: Json = match json::parse_json(request.body.as_slice()) {
            Ok(body) => body,
            Err(_) => {
                return Err("chat/completions body must be JSON".to_owned());
            },
        };
        let wanted: Json = chat::build_responses_body_from_chat(&body);
        return Ok((redirect(request, &wanted), ResponseAdapter::ChatCompletions));
    }
    if http::path_is(request.target.as_str(), IMAGES_GENERATIONS_PATH) {
        if !is_post {
            return Err("images/generations only supports POST".to_owned());
        }
        let body: Json = match json::parse_json(request.body.as_slice()) {
            Ok(body) => body,
            Err(_) => {
                return Err("images/generations body must be JSON".to_owned());
            },
        };
        let response_format: String = images::image_response_format(&body);
        return match images::build_images_generation_request(&body) {
            Ok(wanted) => Ok(
                (redirect(request, &wanted), ResponseAdapter::Images { response_format }),
            ),
            Err(message) => Err(message),
        };
    }
    if http::path_is(request.target.as_str(), IMAGES_EDITS_PATH) {
        if !is_post {
            return Err("images/edits only supports POST".to_owned());
        }
        return match images::build_images_edit_request(&request.headers, request.body.as_slice()) {
            Ok((wanted, response_format)) => Ok(
                (redirect(request, &wanted), ResponseAdapter::Images { response_format }),
            ),
            Err(message) => Err(message),
        };
    }
    if http::path_is(request.target.as_str(), RESPONSES_PATH) && request.body.len() > 0 {
        if let Ok(body) = json::parse_json(request.body.as_slice()) {
            let ghost tree = body@;
            let mut body: Json = body;
            chat::rewrite_model_alias(&mut body);
            chat::inject_image_tool(&mut body);
            let ready: ParsedGatewayRequest = ParsedGatewayRequest {
                method: request.method,
                target: request.target,
                headers: request.headers,
                body: json::print_json(&body),
            };
            proof {
                if json::is_plain(tree) {
                    chat::model_alias_stays_plain(tree);
                    chat::image_tool_stays_plain(chat::with_model_alias(tree));
                }
                reveal_strlit("previous_response_id");
                reveal_strlit("model");
                reveal_strlit("tools");
                assert("previous_response_id"@.len() == 20 && "model"@.len() == 5
                    && "tools"@.len() == 5);
                defaults_keep_the_rest(tree, "previous_response_id"@);
                if json::raw_free(tree) {
                    chat::model_alias_stays_raw_free(tree);
                    chat::image_tool_stays_raw_free(chat::with_model_alias(tree));
                    if let Some(read) = json::parsed(ready@.body) {
                        json::alike_texts(read, body@, "previous_response_id"@);
                    }
                }
            }
            return Ok((ready, ResponseAdapter::Passthrough));
        }
    }
    Ok((request, ResponseAdapter::Passthrough))
}

/// What the gateway does with a request.
#[derive(Debug)]
pub enum Handled {
    /// It answers by itself.
    Reply(HttpReply),
    /// It asks the upstream.
    Forward { request: ParsedGatewayRequest, adapter: ResponseAdapter },
}

/// What is done with a request.
pub enum HandledView {
    Reply(ReplyView),
    Forward { request: RequestView, adapter: AdapterView },
}

impl View for Handled {
    type V = HandledView;

    open spec fn view(&self) -> HandledView {
        match self {
            Handled::Reply(reply) => HandledView::Reply(reply@),
            Handled::Forward { request, adapter } => HandledView::Forward {
                request: request@,
                adapter: adapter@,
            },
        }
    }
}

/// What the gateway with the key `key` does with a request.
pub open spec fn handled(request: RequestView, key: Seq<char>) -> HandledView {
    if request.method == "OPTIONS"@ {
        HandledView::Reply(ReplyView::NoContent)
    } else if request.method != "GET"@ && request.method != "POST"@ {
        HandledView::Reply(http::error_reply(405, "Only GET and POST are allowed"@))
    } else if !"/v1/"@.is_prefix_of(request.target) {
        HandledView::Reply(http::error_reply(404, "Not Found"@))
    } else if !http::shows_key(request.headers, key) {
        HandledView::Reply(http::error_reply(401, "missing or invalid gateway API key"@))
    } else if http::is_path(request.target, "/v1/models"@) {
        HandledView::Reply(http::json_reply(200, chat::models_list()))
    } else {
        match prepared(request) {
            Ok((request, adapter)) => HandledView::Forward { request, adapter },
            Err(message) => HandledView::Reply(http::error_reply(400, message)),
        }
    }
}

/// What the gateway with the key `key` does with a request.
pub fn handle(request: ParsedGatewayRequest, key: &str) -> (r: Handled)
    ensures
        r@ == handled(request@, key@),
{
    if text::same_text(request.method.as_str(), "OPTIONS") {
        return Handled::Reply(HttpReply::NoContent);
    }
    if !text::same_text(request.method.as_str(), "GET") && !text::same_text(
        request.method.as_str(),
        "POST",
    ) {
        return Handled::Reply(http::json_error(405, "Only GET and POST are allowed"));
    }
    if !text::starts_with(request.target.as_str(), "/v1/") {
        return Handled::Reply(http::json_error(404, "Not Found"));
    }
    if !http::authorized(&request.headers, key) {
        return Handled::Reply(http::json_error(401, "missing or invalid gateway API key"));
    }
    if http::is_models_request(request.target.as_str()) {
        return Handled::Reply(http::json_ok(&chat::build_models_response()));
    }
    match prepare_gateway_request(request) {
        Ok((request, adapter)) => Handled::Forward { request, adapter },
        Err(message) => Handled::Reply(http::json_error(400, message.as_str())),
    }
}

/// A request to the upstream.
#[derive(Debug)]
pub struct UpstreamRequest {
    pub method: String,
    pub url: String,
    pub headers: Vec<Header>,
    pub body: Vec<u8>,
}

/// What a request to the upstream is.
pub struct UpstreamView {
    pub method: Seq<char>,
    pub url: Seq<char>,
    pub headers: Seq<HeaderView>,
    pub body: Seq<u8>,
}

impl View for UpstreamRequest {
    type V = UpstreamView;

    open spec fn view(&self) -> UpstreamView {
        UpstreamView {
            method: self.method@,
            url: self.url@,
            headers: http::header_views(self.headers@),
            body: self.body@,
        }
    }
}

/// Whether a header of the client stays at the gateway: what shows the client's key, and what
/// belongs to the connection.
pub open spec fn is_withheld(name: Seq<char>) -> bool {
    let lower = text::lowercase(name);
    ||| lower == "authorization"@
    ||| lower == "host"@
    ||| lower == "content-length"@
    ||| lower == "connection"@
    ||| lower == "accept-encoding"@
    ||| lower == "x-api-key"@
}

/// The headers of the client that go to the upstream.
pub open spec fn forwarded(headers: Seq<HeaderView>) -> Seq<HeaderView>
    decreases headers.len(),
{
    if headers.len() == 0 {
        Seq::empty()
    } else {
        let before = forwarded(headers.drop_last());
        if is_withheld(headers.last().name) {
            before
        } else {
            before.push(headers.last())
        }
    }
}

/// The header `name` with the text `value`.
pub open spec fn text_header(name: Seq<char>, value: Seq<char>) -> HeaderView {
    HeaderView { name, value: text::utf8(value) }
}

/// The headers that say for which account the upstream is asked, and by which client.
pub open spec fn account_headers(account: AccountView) -> Seq<HeaderView> {
    let all = seq![
        text_header("authorization"@, "Bearer "@ + text::trimmed(account.access_token)),
        text_header("user-agent"@, DEFAULT_CODEX_USER_AGENT@),
        text_header("originator"@, DEFAULT_CODEX_ORIGINATOR@),
    ];
    match account.account_id {
        Some(id) => all.push(text_header("chatgpt-account-id"@, id)),
        None => all,
    }
}

/// The headers that a request to the upstream has where the client gives none.
pub open spec fn default_headers(request: RequestView) -> Seq<HeaderView> {
    let accept = if http::header_value(request.headers, "accept"@) is None {
        seq![text_header("accept"@, "application/json"@)]
    } else {
        Seq::empty()
    };
    if http::header_value(request.headers, "content-type"@) is None && request.body.len() > 0 {
        accept.push(text_header("content-type"@, "application/json"@))
    } else {
        accept
    }
}

/// The request to the upstream at `base` for a request and an account; there is none where the
/// path is not one of the upstream's.
pub open spec fn upstream_request(
    request: RequestView,
    base: Seq<char>,
    account: AccountView,
) -> Option<UpstreamView> {
    match http::upstream_path(request.target) {
        Some(path) => Some(
            UpstreamView {
                method: request.method,
                url: base + path,
                headers: forwarded(request.headers) + account_headers(account) + default_headers(
                    request,
                ),
                body: request.body,
            },
        ),
        None => None,
    }
}

/// Whether a header of the client stays at the gateway.
fn withholds(name: &str) -> (r: bool)
    ensures
        r == is_withheld(name@),
{
    let lower: String = text::to_lowercase(name);
    let lower: &str = lower.as_str();
    text::same_text(lower, "authorization") || text::same_text(lower, "host") || text::same_text(
        lower,
        "content-length",
    ) || text::same_text(lower, "connection") || text::same_text(lower, "accept-encoding")
        || text::same_text(lower, "x-api-key")
}

/// The header `name` with the text `value`.
fn header_of(name: &str, value: &str) -> (r: Header)
    ensures
        r@ == text_header(name@, value@),
{
    Header { name: name.to_owned(), value: vstd::slice::slice_to_vec(value.as_bytes()) }
}

/// Adds a header.
fn add_header(headers: &mut Vec<Header>, header: Header)
    ensures
        http::header_views(final(headers)@) == http::header_views(old(headers)@).push(header@),
{
    headers.push(header);
    assert(http::header_views(headers@) == http::header_views(old(headers)@).push(header@));
}

/// The headers of the client that go to the upstream.
fn forward_headers(headers: &Vec<Header>) -> (r: Vec<Header>)
    ensures
        http::header_views(r@) == forwarded(http::header_views(headers@)),
{
    let ghost all = http::header_views(headers@);
    let mut r: Vec<Header> = Vec::new();
    let mut i: usize = 0;
    assert(http::header_views(r@) == forwarded(all.take(0)));
    while i < headers.len()
        invariant
            i <= headers@.len(),
            all == http::header_views(headers@),
            http::header_views(r@) == forwarded(all.take(i as int)),
        decreases headers@.len() - i,
    {
        let header: &Header = &headers[i];
        assert(all.take(i + 1).drop_last() == all.take(i as int));
        assert(all.take(i + 1).last() == header@);
        if !withholds(header.name.as_str()) {
            let copy: Header = Header {
                name: header.name.clone(),
                value: vstd::slice::slice_to_vec(header.value.as_slice()),
            };
            add_header(&mut r, copy);
        }
        i += 1;
    }
    assert(all.take(i as int) == all);
    r
}

/// The request to the upstream at `base` for a request and an account.
pub fn send_upstream(request: &ParsedGatewayRequest, base: &str, account: &Account) -> (r: Option<
    UpstreamRequest,
>)
    ensures
        match r {
            Some(upstream) => upstream_request(request@, base@, account@) == Some(upstream@),
            None => upstream_request(request@, base@, account@) is None,
        },
{
    let path: String = match http::resolve_upstream_target(request.target.as_str()) {
        Some(path) => path,
        None => {
            return None;
        },
    };
    let mut headers: Vec<Header> = forward_headers(&request.headers);
    let token: String = text::trim(account.access_token.as_str());
    let bearer: String = text::joined("Bearer ", token.as_str());
    add_header(&mut headers, header_of("authorization", bearer.as_str()));
    add_header(&mut headers, header_of("user-agent", DEFAULT_CODEX_USER_AGENT));
    add_header(&mut headers, header_of("originator", DEFAULT_CODEX_ORIGINATOR));
    if let Some(id) = &account.account_id {
        add_header(&mut headers, header_of("chatgpt-account-id", id.as_str()));
    }
    let ghost so_far = http::header_views(headers@);
    assert(so_far == forwarded(request@.headers) + account_headers(account@));
    if !http::has_header(&request.headers, "accept") {
        add_header(&mut headers, header_of("accept", "application/json"));
    }
    if !http::has_header(&request.headers, "content-type") && request.body.len() > 0 {
        add_header(&mut headers, header_of("content-type", "application/json"));
    }
    assert(http::header_views(headers@) == so_far + default_headers(request@));
    Some(
        UpstreamRequest {
            method: request.method.clone(),
            url: text::joined(base, path.as_str()),
            headers,
            body: vstd::slice::slice_to_vec(request.body.as_slice()),
        },
    )
}

/// A request goes to the upstream only where the client shows the gateway's key.
pub proof fn forwarded_request_shows_the_key(request: RequestView, key: Seq<char>)
    requires
        handled(request, key) is Forward,
    ensures
        http::shows_key(request.headers, key),
        request.method == "GET"@ || request.method == "POST"@,
        "/v1/"@.is_prefix_of(request.target),
{
}

/// A request that does not show the gateway's key is answered by the gateway itself: with status
/// 401, where it is for a path that the gateway has.
pub proof fn request_without_key_is_refused(request: RequestView, key: Seq<char>)
    requires
        !http::shows_key(request.headers, key),
    ensures
        handled(request, key) is Reply,
        (request.method == "GET"@ || request.method == "POST"@) && "/v1/"@.is_prefix_of(
            request.target,
        ) ==> handled(request, key) == HandledView::Reply(
            http::error_reply(401, "missing or invalid gateway API key"@),
        ),
{
    reveal_strlit("GET");
    reveal_strlit("POST");
    reveal_strlit("OPTIONS");
    assert("GET"@.len() == 3 && "POST"@.len() == 4 && "OPTIONS"@.len() == 7);
}

/// The path of responses at the upstream.
proof fn lemma_responses_path()
    ensures
        http::upstream_path(RESPONSES_PATH@) == Some("/responses"@),
{
    reveal_strlit("/v1/responses");
    reveal_strlit("/v1");
    reveal_strlit("/responses");
    let path = RESPONSES_PATH@;
    assert(path.subrange(0, 3) == "/v1"@);
    assert(path.skip(3) == "/responses"@);
    assert("/responses"@[1] != "/v1"@[1]);
    if "/v1"@.is_prefix_of("/responses"@) {
        assert("/responses"@.subrange(0, 3)[1] == "/responses"@[1]);
    }
    assert(http::without_prefixes("/responses"@, "/v1"@) == "/responses"@);
    assert(http::without_prefixes(path, "/v1"@) == "/responses"@);
}

/// Every request that goes to the upstream has a path there; one whose answer is adapted asks for a
/// response.
pub proof fn forwarded_request_has_a_path(request: RequestView, key: Seq<char>)
    requires
        handled(request, key) is Forward,
    ensures
        ({
            let sent = handled(request, key)->Forward_request;
            let adapter = handled(request, key)->adapter;
            &&& http::upstream_path(sent.target) is Some
            &&& !(adapter is Passthrough) ==> {
                &&& http::upstream_path(sent.target) == Some("/responses"@)
                &&& sent.method == "POST"@
            }
            &&& sent.method == request.method
            &&& sent.headers == request.headers
        }),
{
    lemma_responses_path();
    reveal_strlit("/v1");
    reveal_strlit("/v1/");
    let target = request.target;
    assert("/v1/"@.subrange(0, 3) == "/v1"@);
    assert(target.subrange(0, 4) == "/v1/"@);
    assert(target.subrange(0, 3) == target.subrange(0, 4).subrange(0, 3));
    http::upstream_path_is_absolute(target);
}

/// Setting the defaults of a request for a response a second time changes nothing.
pub proof fn defaults_are_set_once(tree: Tree)
    ensures
        with_defaults(with_defaults(tree)) == with_defaults(tree),
{
    let named = chat::with_model_alias(tree);
    reveal_strlit("model");
    reveal_strlit("tools");
    assert("model"@[0] != "tools"@[0]);
    chat::model_alias_is_resolved(tree);
    chat::image_tool_keeps_the_rest(named, "model"@);
    chat::image_tool_is_added_once(named);
}

/// Setting the defaults of a request for a response leaves every member but the model and the tools
/// as it is.
pub proof fn defaults_keep_the_rest(tree: Tree, key: Seq<char>)
    requires
        key != "model"@,
        key != "tools"@,
    ensures
        with_defaults(tree).get(key) == tree.get(key),
{
    chat::model_alias_keeps_the_rest(tree, key);
    chat::image_tool_keeps_the_rest(chat::with_model_alias(tree), key);
}

/// A header that goes through is one of the client's that is not withheld.
proof fn lemma_forwarded(headers: Seq<HeaderView>, i: int)
    requires
        0 <= i < forwarded(headers).len(),
    ensures
        !is_withheld(forwarded(headers)[i].name),
        headers.contains(forwarded(headers)[i]),
    decreases headers.len(),
{
    if headers.len() > 0 {
        let before = forwarded(headers.drop_last());
        if i < before.len() {
            lemma_forwarded(headers.drop_last(), i);
            let k = choose|k: int|
                0 <= k < headers.drop_last().len() && headers.drop_last()[k] == before[i];
            assert(headers[k] == before[i]);
        } else {
            assert(headers[headers.len() - 1] == headers.last());
        }
    }
}

/// Every header of the client that is not withheld goes through.
proof fn lemma_goes_through(headers: Seq<HeaderView>, i: int)
    requires
        0 <= i < headers.len(),
        !is_withheld(headers[i].name),
    ensures
        forwarded(headers).contains(headers[i]),
    decreases headers.len(),
{
    let before = forwarded(headers.drop_last());
    if i < headers.len() - 1 {
        lemma_goes_through(headers.drop_last(), i);
        assert(headers.drop_last()[i] == headers[i]);
        let k = choose|k: int| 0 <= k < before.len() && before[k] == headers[i];
        assert(forwarded(headers)[k] == headers[i]);
    } else {
        assert(forwarded(headers)[before.len() as int] == headers[i]);
    }
}

/// The first header with a name has its value.
proof fn lemma_header_value_at(headers: Seq<HeaderView>, name: Seq<char>, n: int)
    requires
        0 <= n < headers.len(),
        text::same_ignoring_case(headers[n].name, name),
        forall|i: int| 0 <= i < n ==> !text::same_ignoring_case((#[trigger] headers[i]).name, name),
    ensures
        http::header_value(headers, name) == Some(headers[n].value),
    decreases n,
{
    if n > 0 {
        assert(!text::same_ignoring_case(headers[0].name, name));
        let rest = headers.skip(1);
        assert forall|i: int| 0 <= i < n - 1 implies !text::same_ignoring_case(
            (#[trigger] rest[i]).name,
            name,
        ) by {
            assert(rest[i] == headers[i + 1]);
        }
        lemma_header_value_at(rest, name, n - 1);
    }
}

/// Names that are in lower case stay so.
proof fn lemma_lower_names()
    ensures
        text::lowercase("authorization"@) == "authorization"@,
        text::lowercase("x-api-key"@) == "x-api-key"@,
        "authorization"@.len() == 13,
        "x-api-key"@.len() == 9,
        "user-agent"@.len() == 10,
        "originator"@.len() == 10,
        "chatgpt-account-id"@.len() == 18,
        "accept"@.len() == 6,
        "content-type"@.len() == 12,
{
    reveal_strlit("authorization");
    reveal_strlit("x-api-key");
    reveal_strlit("user-agent");
    reveal_strlit("originator");
    reveal_strlit("chatgpt-account-id");
    reveal_strlit("accept");
    reveal_strlit("content-type");
}

/// The gateway's key stays at the gateway: in the headers for keys the upstream sees the access
/// token of the account, and nothing of the client's.
pub proof fn upstream_sees_the_account_only(
    request: RequestView,
    base: Seq<char>,
    account: AccountView,
)
    requires
        upstream_request(request, base, account) is Some,
    ensures
        ({
            let headers = upstream_request(request, base, account).unwrap().headers;
            let bearer = text_header(
                "authorization"@,
                "Bearer "@ + text::trimmed(account.access_token),
            );
            &&& http::header_value(headers, "authorization"@) == Some(bearer.value)
            &&& forall|i: int|
                0 <= i < headers.len() && text::same_ignoring_case(
                    (#[trigger] headers[i]).name,
                    "authorization"@,
                ) ==> headers[i] == bearer
            &&& http::header_value(headers, "x-api-key"@) is None
        }),
{
    let headers = upstream_request(request, base, account).unwrap().headers;
    let through = forwarded(request.headers);
    let n = through.len() as int;
    lemma_lower_names();
    assert(headers[n] == account_headers(account)[0]);
    assert forall|i: int| 0 <= i < headers.len() && i != n implies !text::same_ignoring_case(
        (#[trigger] headers[i]).name,
        "authorization"@,
    ) by {
        lemma_own_header(request, account, i);
    }
    assert forall|i: int| 0 <= i < headers.len() implies !text::same_ignoring_case(
        (#[trigger] headers[i]).name,
        "x-api-key"@,
    ) by {
        if i == n {
            assert(text::lowercase(headers[i].name).len() == 13);
            assert(text::lowercase("x-api-key"@).len() == 9);
        } else {
            lemma_own_header(request, account, i);
        }
    }
    lemma_header_value_at(headers, "authorization"@, n);
    lemma_no_header(headers, "x-api-key"@);
}

/// Where no header has a name, it has no value.
proof fn lemma_no_header(headers: Seq<HeaderView>, name: Seq<char>)
    requires
        forall|i: int|
            0 <= i < headers.len() ==> !text::same_ignoring_case((#[trigger] headers[i]).name, name),
    ensures
        http::header_value(headers, name) is None,
    decreases headers.len(),
{
    if headers.len() > 0 {
        assert(!text::same_ignoring_case(headers[0].name, name));
        let rest = headers.skip(1);
        assert forall|i: int| 0 <= i < rest.len() implies !text::same_ignoring_case(
            (#[trigger] rest[i]).name,
            name,
        ) by {
            assert(rest[i] == headers[i + 1]);
        }
        lemma_no_header(rest, name);
    }
}

/// No header but the one that says for which account the upstream is asked shows a key.
proof fn lemma_own_header(request: RequestView, account: AccountView, i: int)
    requires
        0 <= i < (forwarded(request.headers) + account_headers(account) + default_headers(
            request,
        )).len(),
        i != forwarded(request.headers).len(),
    ensures
        ({
            let name = (forwarded(request.headers) + account_headers(account) + default_headers(
                request,
            ))[i].name;
            &&& !text::same_ignoring_case(name, "authorization"@)
            &&& !text::same_ignoring_case(name, "x-api-key"@)
        }),
{
    let through = forwarded(request.headers);
    let own = account_headers(account);
    let defaults = default_headers(request);
    let header = (through + own + defaults)[i];
    lemma_lower_names();
    if i < through.len() {
        assert(header == through[i]);
        lemma_forwarded(request.headers, i);
    } else {
        if i < through.len() + own.len() {
            assert(header == own[i - through.len()]);
        } else {
            assert(header == defaults[i - through.len() - own.len()]);
        }
        assert(text::lowercase(header.name).len() == header.name.len());
        assert(text::lowercase("authorization"@).len() == 13);
        assert(text::lowercase("x-api-key"@).len() == 9);
    }
}

/// Every header of the client but those that are withheld reaches the upstream as it is.
pub proof fn other_headers_reach_the_upstream(
    request: RequestView,
    base: Seq<char>,
    account: AccountView,
    header: HeaderView,
)
    requires
        upstream_request(request, base, account) is Some,
        request.headers.contains(header),
        !is_withheld(header.name),
    ensures
        upstream_request(request, base, account).unwrap().headers.contains(header),
{
    let headers = upstream_request(request, base, account).unwrap().headers;
    let i = choose|i: int| 0 <= i < request.headers.len() && request.headers[i] == header;
    lemma_goes_through(request.headers, i);
    let through = forwarded(request.headers);
    let k = choose|k: int| 0 <= k < through.len() && through[k] == header;
    assert(headers[k] == header);
}

} // verus!
