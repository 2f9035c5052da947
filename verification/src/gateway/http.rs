//! Requests and replies: headers, paths, the gateway key and the shape of an answer.
use crate::json;
use crate::json::{Json, Tree};
use crate::outside;
use crate::text;
use vstd::prelude::*;

verus! {

/// The header of a request: its name, in any case, and its value.
#[derive(Debug)]
pub struct Header {
    pub name: String,
    pub value: Vec<u8>,
}

/// What a header is.
pub struct HeaderView {
    pub name: Seq<char>,
    pub value: Seq<u8>,
}

impl View for Header {
    type V = HeaderView;

    open spec fn view(&self) -> HeaderView {
        HeaderView { name: self.name@, value: self.value@ }
    }
}

/// What a list of headers holds.
pub open spec fn header_views(headers: Seq<Header>) -> Seq<HeaderView> {
    Seq::new(headers.len(), |i: int| headers[i]@)
}

/// The value of the first header with the given name.
pub open spec fn header_value(headers: Seq<HeaderView>, name: Seq<char>) -> Option<Seq<u8>>
    decreases headers.len(),
{
    if headers.len() == 0 {
        None
    } else if text::same_ignoring_case(headers[0].name, name) {
        Some(headers[0].value)
    } else {
        header_value(headers.skip(1), name)
    }
}

/// Whether `b` may stand in a header that is read as text: visible ASCII, space and tab.
pub open spec fn is_visible(b: u8) -> bool {
    32 <= b < 127 || b == 9
}

/// The text of a header value, where it is visible.
pub open spec fn visible_text(value: Seq<u8>) -> Option<Seq<char>> {
    if forall|i: int| 0 <= i < value.len() ==> is_visible(#[trigger] value[i]) {
        Some(Seq::new(value.len(), |i: int| value[i] as char))
    } else {
        None
    }
}

/// The text of the first header with the given name, where it is visible.
pub open spec fn header_text(headers: Seq<HeaderView>, name: Seq<char>) -> Option<Seq<char>> {
    match header_value(headers, name) {
        Some(value) => visible_text(value),
        None => None,
    }
}

/// The place of the first header with the given name.
fn find_header(headers: &Vec<Header>, name: &str) -> (r: Option<usize>)
    ensures
        match r {
            Some(i) => {
                &&& i < headers@.len()
                &&& header_value(header_views(headers@), name@) == Some(headers@[i as int].value@)
            },
            None => header_value(header_views(headers@), name@) is None,
        },
{
    let ghost all = header_views(headers@);
    let mut i: usize = 0;
    assert(all.skip(0) == all);
    while i < headers.len()
        invariant
            i <= headers@.len(),
            all == header_views(headers@),
            header_value(all, name@) == header_value(all.skip(i as int), name@),
        decreases headers@.len() - i,
    {
        assert(all.skip(i as int)[0] == headers@[i as int]@);
        if text::equal_ignoring_case(headers[i].name.as_str(), name) {
            return Some(i);
        }
        assert(all.skip(i as int).skip(1) == all.skip(i + 1));
        i += 1;
    }
    None
}

/// Whether there is a header with the given name.
pub fn has_header(headers: &Vec<Header>, name: &str) -> (r: bool)
    ensures
        r == (header_value(header_views(headers@), name@) is Some),
{
    find_header(headers, name).is_some()
}

/// The text of a header value, where it is visible.
fn value_text(value: &Vec<u8>) -> (r: Option<String>)
    ensures
        text::opt_text(r) == visible_text(value@),
{
    let mut s: String = String::new();
    let mut i: usize = 0;
    while i < value.len()
        invariant
            i <= value@.len(),
            forall|k: int| 0 <= k < i ==> is_visible(#[trigger] value@[k]),
            s@ == Seq::new(i as nat, |k: int| value@[k] as char),
        decreases value@.len() - i,
    {
        let b: u8 = value[i];
        if !((32 <= b && b < 127) || b == 9) {
            assert(!is_visible(value@[i as int]));
            return None;
        }
        s.push(b as char);
        i += 1;
    }
    Some(s)
}

/// The text of the first header with the given name, where it is visible.
pub fn get_header_text(headers: &Vec<Header>, name: &str) -> (r: Option<String>)
    ensures
        text::opt_text(r) == header_text(header_views(headers@), name@),
{
    match find_header(headers, name) {
        Some(i) => value_text(&headers[i].value),
        None => None,
    }
}

/// The key that a request shows as a bearer token.
pub open spec fn bearer_key(headers: Seq<HeaderView>) -> Option<Seq<char>> {
    match header_text(headers, "authorization"@) {
        Some(value) => if "Bearer "@.is_prefix_of(value) {
            Some(text::trimmed(value.skip("Bearer "@.len() as int)))
        } else if "bearer "@.is_prefix_of(value) {
            Some(text::trimmed(value.skip("bearer "@.len() as int)))
        } else {
            None
        },
        None => None,
    }
}

/// The key that a request shows in the header for it.
pub open spec fn api_key(headers: Seq<HeaderView>) -> Option<Seq<char>> {
    match header_text(headers, "x-api-key"@) {
        Some(value) => Some(text::trimmed(value)),
        None => None,
    }
}

/// Whether a request shows the key `expected`.
pub open spec fn shows_key(headers: Seq<HeaderView>, expected: Seq<char>) -> bool {
    bearer_key(headers) == Some(expected) || api_key(headers) == Some(expected)
}

/// Whether a request shows the key `expected`.
pub fn authorized(headers: &Vec<Header>, expected: &str) -> (r: bool)
    ensures
        r == shows_key(header_views(headers@), expected@),
{
    if let Some(value) = get_header_text(headers, "authorization") {
        let rest: Option<String> = match text::strip_prefix(value.as_str(), "Bearer ") {
            Some(rest) => Some(rest),
            None => text::strip_prefix(value.as_str(), "bearer "),
        };
        if let Some(rest) = rest {
            let key: String = text::trim(rest.as_str());
            if text::same_text(key.as_str(), expected) {
                return true;
            }
        }
    }
    if let Some(value) = get_header_text(headers, "x-api-key") {
        let key: String = text::trim(value.as_str());
        if text::same_text(key.as_str(), expected) {
            return true;
        }
    }
    false
}

/// What is asked for: the path with the query, where the request has one so.
pub fn normalize_target(path_and_query: Option<String>, path: String) -> (r: String)
    ensures
        r@ == match path_and_query {
            Some(target) => target@,
            None => path@,
        },
{
    match path_and_query {
        Some(target) => target,
        None => path,
    }
}

/// Whether `target` is the path `expected`, with a query or without.
pub open spec fn is_path(target: Seq<char>, expected: Seq<char>) -> bool {
    target == expected || (expected + seq!['?']).is_prefix_of(target)
}

/// Whether `target` is the path `expected`, with a query or without.
pub fn path_is(target: &str, expected: &str) -> (r: bool)
    ensures
        r == is_path(target@, expected@),
{
    let mut with_query: String = expected.to_owned();
    with_query.push('?');
    assert(with_query@ == expected@ + seq!['?']);
    text::same_text(target, expected) || text::starts_with(target, with_query.as_str())
}

/// Whether the list of models is asked for.
pub fn is_models_request(target: &str) -> (r: bool)
    ensures
        r == is_path(target@, "/v1/models"@),
{
    path_is(target, "/v1/models")
}

/// `s` without each `prefix` at its start, one after another.
pub open spec fn without_prefixes(s: Seq<char>, prefix: Seq<char>) -> Seq<char>
    decreases s.len(),
{
    if prefix.len() > 0 && prefix.is_prefix_of(s) {
        without_prefixes(s.skip(prefix.len() as int), prefix)
    } else {
        s
    }
}

/// The path at the upstream for a path at the gateway: without the version, and never empty.
pub open spec fn upstream_path(target: Seq<char>) -> Option<Seq<char>> {
    if "/v1"@.is_prefix_of(target) {
        let rest = without_prefixes(target, "/v1"@);
        if rest.len() > 0 && rest[0] == '/' {
            Some(rest)
        } else {
            Some(seq!['/'] + rest)
        }
    } else {
        None
    }
}

/// The path at the upstream for a path at the gateway; there is none outside `/v1`.
pub fn resolve_upstream_target(target: &str) -> (r: Option<String>)
    ensures
        text::opt_text(r) == upstream_path(target@),
{
    if !text::starts_with(target, "/v1") {
        return None;
    }
    let mut rest: String = target.to_owned();
    proof {
        reveal_strlit("/v1");
    }
    while text::starts_with(rest.as_str(), "/v1")
        invariant
            without_prefixes(rest@, "/v1"@) == without_prefixes(target@, "/v1"@),
            "/v1"@.len() == 3,
        decreases rest@.len(),
    {
        match text::strip_prefix(rest.as_str(), "/v1") {
            Some(shorter) => {
                rest = shorter;
            },
            None => {},
        }
    }
    if text::starts_with(rest.as_str(), "/") {
        proof {
            reveal_strlit("/");
            assert("/"@ == seq!['/']);
            assert(rest@.subrange(0, 1)[0] == rest@[0]);
        }
        Some(rest)
    } else {
        proof {
            reveal_strlit("/");
            assert("/"@ == seq!['/']);
            if rest@.len() > 0 && rest@[0] == '/' {
                assert(rest@.subrange(0, 1) == "/"@);
            }
        }
        Some(text::joined("/", rest.as_str()))
    }
}

/// Whether an HTTP status says that a request succeeded.
pub open spec fn is_success(status: u16) -> bool {
    200 <= status < 300
}

/// Whether an HTTP status says that a request succeeded.
pub fn succeeded(status: u16) -> (r: bool)
    ensures
        r == is_success(status),
{
    200 <= status && status < 300
}

/// Whether a status of the upstream lets the next account be tried.
pub open spec fn is_retryable(status: u16) -> bool {
    ||| status == 401
    ||| status == 403
    ||| status == 408
    ||| status == 429
    ||| status == 500
    ||| status == 502
    ||| status == 503
    ||| status == 504
}

/// Whether a status of the upstream lets the next account be tried.
pub fn should_try_next_account(status: u16) -> (r: bool)
    ensures
        r == is_retryable(status),
{
    status == 401 || status == 403 || status == 408 || status == 429 || status == 500 || status
        == 502 || status == 503 || status == 504
}

/// An answer of the gateway.
#[derive(Debug)]
pub enum HttpReply {
    /// Nothing, with the status 204.
    NoContent,
    /// JSON.
    Json { status: u16, body: Vec<u8> },
    /// Bytes with the content type that the upstream gave them, where it gave one.
    Bytes { status: u16, content_type: Option<Vec<u8>>, body: Vec<u8> },
}

/// What an answer of the gateway is.
pub enum ReplyView {
    NoContent,
    Json { status: u16, body: Seq<u8> },
    Bytes { status: u16, content_type: Option<Seq<u8>>, body: Seq<u8> },
}

/// What optional bytes hold.
pub open spec fn opt_bytes(bytes: Option<Vec<u8>>) -> Option<Seq<u8>> {
    match bytes {
        Some(bytes) => Some(bytes@),
        None => None,
    }
}

impl View for HttpReply {
    type V = ReplyView;

    open spec fn view(&self) -> ReplyView {
        match self {
            HttpReply::NoContent => ReplyView::NoContent,
            HttpReply::Json { status, body } => ReplyView::Json { status: *status, body: body@ },
            HttpReply::Bytes { status, content_type, body } => ReplyView::Bytes {
                status: *status,
                content_type: opt_bytes(*content_type),
                body: body@,
            },
        }
    }
}

/// The answer `tree` with the given status.
pub open spec fn json_reply(status: u16, tree: Tree) -> ReplyView {
    ReplyView::Json { status, body: json::json_printed(tree) }
}

/// What an error says.
pub open spec fn error_tree(status: u16, message: Seq<char>) -> Tree {
    json::object(
        seq![
            (
                "error"@,
                json::object(
                    seq![
                        ("message"@, Tree::Text(message)),
                        ("type"@, Tree::Text("codex_gateway_error"@)),
                        ("code"@, Tree::Integer(status as int)),
                    ],
                ),
            ),
        ],
    )
}

/// The answer to a request that fails.
pub open spec fn error_reply(status: u16, message: Seq<char>) -> ReplyView {
    json_reply(status, error_tree(status, message))
}

/// Whether the body of an answer is read as `tree`.
pub open spec fn says(reply: ReplyView, tree: Tree) -> bool {
    reply matches ReplyView::Json { body, .. } && json::parses_to(body, tree)
}

/// The answer `value` with the given status.
pub fn json_response(status: u16, value: &Json) -> (r: HttpReply)
    ensures
        r@ == json_reply(status, value@),
        json::is_plain(value@) ==> says(r@, value@),
{
    HttpReply::Json { status, body: json::print_json(value) }
}

/// The answer `value`.
pub fn json_ok(value: &Json) -> (r: HttpReply)
    ensures
        r@ == json_reply(200, value@),
        json::is_plain(value@) ==> says(r@, value@),
{
    json_response(200, value)
}

/// The answer to a request that fails.
pub fn json_error(status: u16, message: &str) -> (r: HttpReply)
    ensures
        r@ == error_reply(status, message@),
        says(r@, error_tree(status, message@)),
{
    let inner: Vec<(&str, Json)> = vec![
        ("message", Json::text(message)),
        ("type", Json::text("codex_gateway_error")),
        ("code", Json::Unsigned(status as u64)),
    ];
    assert(json::pair_trees(inner@) == seq![
        ("message"@, Tree::Text(message@)),
        ("type"@, Tree::Text("codex_gateway_error"@)),
        ("code"@, Tree::Integer(status as int)),
    ]);
    let error: Json = json::json_object(inner);
    let outer: Vec<(&str, Json)> = vec![("error", error)];
    assert(json::pair_trees(outer@) == seq![("error"@, error@)]);
    proof {
        reveal_strlit("$serde_json::private::RawValue");
        reveal_strlit("message");
        reveal_strlit("type");
        reveal_strlit("code");
        reveal_strlit("error");
        assert(json::RAW_KEY@.len() == 30 && "message"@.len() == 7 && "type"@.len() == 4
            && "code"@.len() == 4 && "error"@.len() == 5);
        json::object_stays_shallow(json::pair_trees(inner@), 0);
        json::object_stays_shallow(json::pair_trees(outer@), 1);
    }
    json_response(status, &json::json_object(outer))
}

/// The answer of the upstream, passed on.
pub fn bytes_response(status: u16, content_type: Option<Vec<u8>>, body: Vec<u8>) -> (r: HttpReply)
    ensures
        r@ == (ReplyView::Bytes { status, content_type: opt_bytes(content_type), body: body@ }),
{
    HttpReply::Bytes { status, content_type, body }
}

/// Whether `c` may stand in a header that is read as text.
pub open spec fn is_visible_char(c: char) -> bool {
    ' ' <= c <= '~' || c == '\t'
}

/// A client that shows the key in either header is let in, where the key is visible and has no
/// white space around it.
pub proof fn shown_key_is_accepted(headers: Seq<HeaderView>, key: Seq<char>)
    requires
        forall|i: int| 0 <= i < key.len() ==> is_visible_char(#[trigger] key[i]),
        text::trimmed(key) == key,
        header_value(headers, "authorization"@) == Some(text::utf8("Bearer "@ + key)) || header_value(
            headers,
            "x-api-key"@,
        ) == Some(text::utf8(key)),
    ensures
        shows_key(headers, key),
{
    lemma_visible(key);
    if header_value(headers, "authorization"@) == Some(text::utf8("Bearer "@ + key)) {
        reveal_strlit("Bearer ");
        let value = "Bearer "@ + key;
        assert forall|i: int| 0 <= i < value.len() implies is_visible_char(#[trigger] value[i]) by {
            if i >= 7 {
                assert(value[i] == key[i - 7]);
            }
        }
        lemma_visible(value);
        assert(value.subrange(0, 7) == "Bearer "@);
        assert(value.skip(7) == key);
    }
}

/// Visible text is read from a header as it was written there.
proof fn lemma_visible(s: Seq<char>)
    requires
        forall|i: int| 0 <= i < s.len() ==> is_visible_char(#[trigger] s[i]),
    ensures
        visible_text(text::utf8(s)) == Some(s),
{
    vstd::utf8::is_ascii_chars_encode_utf8(s);
    let bytes = text::utf8(s);
    assert forall|i: int| 0 <= i < bytes.len() implies is_visible(#[trigger] bytes[i]) by {
        assert(is_visible_char(s[i]));
    }
    assert(Seq::new(bytes.len(), |i: int| bytes[i] as char) == s);
}

/// A key that the gateway made lets a client in that shows it in either header.
pub proof fn made_key_is_accepted(headers: Seq<HeaderView>, key: Seq<char>)
    requires
        outside::all_alphanumeric(key),
        header_value(headers, "authorization"@) == Some(text::utf8("Bearer "@ + key)) || header_value(
            headers,
            "x-api-key"@,
        ) == Some(text::utf8(key)),
    ensures
        shows_key(headers, key),
{
    assert forall|i: int| 0 <= i < key.len() implies is_visible_char(#[trigger] key[i]) by {
        assert(outside::is_alphanumeric(key[i]));
    }
    if key.len() > 0 {
        assert(outside::is_alphanumeric(key[0]));
        assert(outside::is_alphanumeric(key[key.len() - 1]));
    }
    assert(text::trimmed(key) == key);
    shown_key_is_accepted(headers, key);
}

/// A client that shows no key is not let in.
pub proof fn no_key_is_refused(headers: Seq<HeaderView>, key: Seq<char>)
    requires
        header_value(headers, "authorization"@) is None,
        header_value(headers, "x-api-key"@) is None,
    ensures
        !shows_key(headers, key),
{
}

/// A path at the upstream starts with a slash, and there is one for every path under `/v1`.
pub proof fn upstream_path_is_absolute(target: Seq<char>)
    ensures
        upstream_path(target) is Some == "/v1"@.is_prefix_of(target),
        upstream_path(target) matches Some(path) ==> path.len() > 0 && path[0] == '/',
{
}

} // verus!
