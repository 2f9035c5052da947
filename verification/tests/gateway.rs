use codex_gateway_core::gateway::answer::{previous_response_id, ResponseAdapter};
use codex_gateway_core::gateway::chat::{
    build_models_response, build_responses_body_from_chat, inject_image_tool,
    normalize_chat_content, rewrite_model_alias,
};
use codex_gateway_core::gateway::http::{
    authorized, get_header_text, has_header, is_models_request, json_error, json_ok,
    normalize_target, path_is, resolve_upstream_target, should_try_next_account, Header, HttpReply,
};
use codex_gateway_core::gateway::images::{
    build_images_edit_request, build_images_generation_request, extract_json_edit_images,
    image_generation_tool, image_response_format, validate_image_model,
};
use codex_gateway_core::gateway::multipart::{
    detect_image_mime, find_subslice, multipart_content_type, multipart_name,
    parse_multipart_form, split_multipart_parts, trim_part_prefix, trim_part_suffix,
};
use codex_gateway_core::gateway::request::{
    handle, prepare_gateway_request, send_upstream, Handled, ParsedGatewayRequest,
};
use codex_gateway_core::json::{parse_json, print_json, Json};
use codex_gateway_core::{Account, Store};

fn parse(s: &str) -> Json {
    match parse_json(s.as_bytes()) {
        Ok(value) => value,
        Err(error) => panic!("{}", error),
    }
}

fn parse_bytes(bytes: &[u8]) -> Json {
    parse(std::str::from_utf8(bytes).unwrap())
}

fn printed(value: &Json) -> String {
    String::from_utf8(print_json(value)).unwrap()
}

fn member<'a>(value: &'a Json, key: &str) -> &'a Json {
    value.get(key).unwrap()
}

fn item(value: &Json, i: usize) -> &Json {
    &value.as_array().unwrap()[i]
}

fn text(value: &Json) -> &str {
    value.as_text().unwrap().as_str()
}

fn header(name: &str, value: &str) -> Header {
    Header {
        name: name.to_string(),
        value: value.as_bytes().to_vec(),
    }
}

fn request(method: &str, target: &str, headers: Vec<Header>, body: &str) -> ParsedGatewayRequest {
    ParsedGatewayRequest {
        method: method.to_string(),
        target: target.to_string(),
        headers,
        body: body.as_bytes().to_vec(),
    }
}

fn post(target: &str, body: &str) -> ParsedGatewayRequest {
    request("POST", target, Vec::new(), body)
}

fn refusal(request: ParsedGatewayRequest) -> String {
    match prepare_gateway_request(request) {
        Ok(_) => panic!("not refused"),
        Err(message) => message,
    }
}

fn reply(handled: Handled) -> (u16, String) {
    match handled {
        Handled::Reply(HttpReply::NoContent) => (204, String::new()),
        Handled::Reply(HttpReply::Json { status, body }) => {
            (status, String::from_utf8(body).unwrap())
        }
        other => panic!("{:?}", other),
    }
}

fn account() -> Account {
    Account {
        id: "id-1".to_string(),
        name: "main".to_string(),
        email: "dev@example.com".to_string(),
        account_id: Some("acc-1".to_string()),
        organization_id: None,
        user_id: None,
        id_token: None,
        access_token: " token-1 \n".to_string(),
        refresh_token: None,
        imported_at: 0,
        updated_at: 0,
    }
}

#[test]
fn models_include_image_model() {
    let response = build_models_response();
    let data = response.get("data").unwrap().as_array().unwrap();
    assert!(data
        .iter()
        .any(|item| item.get_text("id").map(|id| id.as_str()) == Some("gpt-image-2")));
    assert_eq!(data.len(), 11);
}

#[test]
fn chat_completions_are_prepared_as_responses() {
    let request = post(
        "/v1/chat/completions",
        r#"{"model":"gpt-5-codex","messages":[{"role":"user","content":"hi"}]}"#,
    );
    let (prepared, adapter) = prepare_gateway_request(request).unwrap();
    assert_eq!(prepared.target, "/v1/responses");
    assert!(matches!(adapter, ResponseAdapter::ChatCompletions));
    let body = parse_bytes(&prepared.body);
    let content = member(item(member(&body, "input"), 0), "content");
    assert_eq!(text(member(item(content, 0), "type")), "input_text");
}

#[test]
fn images_generation_is_prepared_as_responses() {
    let request = post(
        "/v1/images/generations",
        r#"{"model":"gpt-image-2","prompt":"draw","size":"1024x1024"}"#,
    );
    let (prepared, adapter) = prepare_gateway_request(request).unwrap();
    assert_eq!(prepared.target, "/v1/responses");
    assert!(matches!(adapter, ResponseAdapter::Images { .. }));
    let body = parse_bytes(&prepared.body);
    assert_eq!(
        text(member(item(member(&body, "tools"), 0), "type")),
        "image_generation"
    );
}

#[test]
fn multipart_images_edit_preserves_binary_image() {
    let boundary = "test-boundary";
    let png = b"\x89PNG\r\n\x1a\nabc";
    let mut body = Vec::new();
    body.extend_from_slice(
        format!(
            "--{}\r\nContent-Disposition: form-data; name=\"prompt\"\r\n\r\nedit it\r\n",
            boundary
        )
        .as_bytes(),
    );
    body.extend_from_slice(
        format!(
            "--{}\r\nContent-Disposition: form-data; name=\"image\"; filename=\"a.png\"\r\nContent-Type: image/png\r\n\r\n",
            boundary
        )
        .as_bytes(),
    );
    body.extend_from_slice(png);
    body.extend_from_slice(format!("\r\n--{}--\r\n", boundary).as_bytes());

    let headers = vec![header(
        "content-type",
        &format!("multipart/form-data; boundary={}", boundary),
    )];
    let (prepared, response_format) = build_images_edit_request(&headers, &body).unwrap();
    assert_eq!(response_format, "b64_json");
    let content = member(item(member(&prepared, "input"), 0), "content");
    let image_url = text(member(item(content, 1), "image_url"));
    assert!(image_url.starts_with("data:image/png;base64,"));
    assert_eq!(image_url, "data:image/png;base64,iVBORw0KGgphYmM=");
    assert_eq!(text(member(item(content, 0), "text")), "edit it");
}

#[test]
fn responses_rewrite_model_alias_and_inject_image_tool() {
    let request = post(
        "/v1/responses",
        r#"{"model":"codex-mini-latest","input":"hi"}"#,
    );
    let (prepared, adapter) = prepare_gateway_request(request).unwrap();
    assert!(matches!(adapter, ResponseAdapter::Passthrough));
    let body = parse_bytes(&prepared.body);
    assert_eq!(text(member(&body, "model")), "gpt-5-codex-mini");
    assert_eq!(
        text(member(item(member(&body, "tools"), 0), "type")),
        "image_generation"
    );
}

#[test]
fn rejects_wrong_image_model() {
    let request = post(
        "/v1/images/generations",
        r#"{"model":"other","prompt":"draw"}"#,
    );
    assert!(prepare_gateway_request(request).is_err());
}

#[test]
fn bearer_and_x_api_key_authenticate() {
    let mut headers = vec![header("authorization", "Bearer secret")];
    assert!(authorized(&headers, "secret"));
    headers.clear();
    headers.push(header("x-api-key", "secret"));
    assert!(authorized(&headers, "secret"));
    assert!(!authorized(&headers, "nope"));
}

#[test]
fn keys_are_read_with_care() {
    assert!(authorized(&vec![header("Authorization", "bearer  secret ")], "secret"));
    assert!(!authorized(&vec![header("authorization", "BEARER secret")], "secret"));
    assert!(!authorized(&vec![header("authorization", "secret")], "secret"));
    assert!(!authorized(&Vec::new(), "secret"));
    let both = vec![
        header("authorization", "Bearer other"),
        header("X-API-Key", " secret "),
    ];
    assert!(authorized(&both, "secret"));
    let hidden = vec![Header {
        name: "x-api-key".to_string(),
        value: vec![0xff],
    }];
    assert!(!authorized(&hidden, "\u{ff}"));
    assert!(has_header(&hidden, "X-Api-Key"));
    assert_eq!(get_header_text(&hidden, "x-api-key"), None);
}

#[test]
fn requests_are_refused_in_order() {
    let key = || vec![header("x-api-key", "secret")];
    assert_eq!(reply(handle(request("OPTIONS", "/", Vec::new(), ""), "secret")).0, 204);
    assert_eq!(
        reply(handle(request("DELETE", "/v1/models", key(), ""), "secret")),
        (
            405,
            "{\"error\":{\"code\":405,\"message\":\"Only GET and POST are allowed\",\"type\":\"codex_gateway_error\"}}".to_string()
        )
    );
    assert_eq!(
        reply(handle(request("GET", "/models", key(), ""), "secret")),
        (
            404,
            "{\"error\":{\"code\":404,\"message\":\"Not Found\",\"type\":\"codex_gateway_error\"}}".to_string()
        )
    );
    assert_eq!(
        reply(handle(request("GET", "/v1/models", Vec::new(), ""), "secret")),
        (
            401,
            "{\"error\":{\"code\":401,\"message\":\"missing or invalid gateway API key\",\"type\":\"codex_gateway_error\"}}".to_string()
        )
    );
    let (status, body) = reply(handle(request("GET", "/v1/models?x=1", key(), ""), "secret"));
    assert_eq!(status, 200);
    assert!(body.contains("gpt-5.3-codex-spark"));
    let (status, body) = reply(handle(
        request("POST", "/v1/chat/completions", key(), "{"),
        "secret",
    ));
    assert_eq!(status, 400);
    assert!(body.contains("chat/completions body must be JSON"));
}

#[test]
fn authorized_requests_are_forwarded() {
    let forwarded = handle(
        request(
            "POST",
            "/v1/responses",
            vec![header("authorization", "Bearer secret")],
            "{\"model\":\"m\"}",
        ),
        "secret",
    );
    match forwarded {
        Handled::Forward { request, adapter } => {
            assert_eq!(request.target, "/v1/responses");
            assert_eq!(
                request.body,
                b"{\"model\":\"m\",\"tools\":[{\"type\":\"image_generation\"}]}"
            );
            assert!(matches!(adapter, ResponseAdapter::Passthrough));
        }
        other => panic!("{:?}", other),
    }
}

#[test]
fn prepared_requests_must_be_posts_with_json() {
    assert_eq!(
        refusal(request("GET", "/v1/chat/completions", Vec::new(), "{}")),
        "chat/completions only supports POST"
    );
    assert_eq!(
        refusal(post("/v1/chat/completions?x", "no")),
        "chat/completions body must be JSON"
    );
    assert_eq!(
        refusal(request("GET", "/v1/images/generations", Vec::new(), "{}")),
        "images/generations only supports POST"
    );
    assert_eq!(
        refusal(post("/v1/images/generations", "no")),
        "images/generations body must be JSON"
    );
    assert_eq!(
        refusal(post("/v1/images/generations", "{}")),
        "images/generations missing prompt"
    );
    assert_eq!(
        refusal(request("GET", "/v1/images/edits", Vec::new(), "{}")),
        "images/edits only supports POST"
    );
}

#[test]
fn other_requests_pass_unchanged() {
    let (prepared, adapter) = prepare_gateway_request(post("/v1/responses", "no JSON")).unwrap();
    assert_eq!(prepared.body, b"no JSON");
    assert!(matches!(adapter, ResponseAdapter::Passthrough));
    let (prepared, _) = prepare_gateway_request(post("/v1/responses", "")).unwrap();
    assert!(prepared.body.is_empty());
    let (prepared, _) = prepare_gateway_request(post("/v1/files", "{\"a\": 1}")).unwrap();
    assert_eq!(prepared.body, b"{\"a\": 1}");
    assert_eq!(prepared.target, "/v1/files");
}

#[test]
fn image_tool_is_offered_once() {
    let mut body = parse("{\"model\":\"m\"}");
    inject_image_tool(&mut body);
    let once = printed(&body);
    assert_eq!(once, "{\"model\":\"m\",\"tools\":[{\"type\":\"image_generation\"}]}");
    inject_image_tool(&mut body);
    assert_eq!(printed(&body), once);
    let mut with_other = parse("{\"tools\":[{\"type\":\"web\"}]}");
    inject_image_tool(&mut with_other);
    assert_eq!(
        printed(&with_other),
        "{\"tools\":[{\"type\":\"web\"},{\"type\":\"image_generation\"}]}"
    );
    let mut odd = parse("{\"tools\":1}");
    inject_image_tool(&mut odd);
    assert_eq!(printed(&odd), "{\"tools\":1}");
    let mut list = parse("[1]");
    inject_image_tool(&mut list);
    assert_eq!(printed(&list), "[1]");
}

#[test]
fn model_alias_is_resolved() {
    let mut body = parse("{\"input\":\"i\",\"model\":\"codex-mini-latest\"}");
    rewrite_model_alias(&mut body);
    assert_eq!(printed(&body), "{\"input\":\"i\",\"model\":\"gpt-5-codex-mini\"}");
    let mut other = parse("{\"model\":\"gpt-5-codex\"}");
    rewrite_model_alias(&mut other);
    assert_eq!(printed(&other), "{\"model\":\"gpt-5-codex\"}");
}

#[test]
fn chat_request_becomes_a_response_request() {
    let body = parse(
        "{\"messages\":[{\"content\":\"hi\"},{\"role\":\"system\",\"content\":[{\"type\":\"text\",\"text\":\"t\"}]}],\"stream\":true,\"store\":1}",
    );
    let wanted = build_responses_body_from_chat(&body);
    assert_eq!(text(member(&wanted, "model")), "gpt-5-codex");
    assert_eq!(member(&wanted, "stream").as_bool(), Some(true));
    assert_eq!(member(&wanted, "store").as_bool(), Some(false));
    let input = member(&wanted, "input");
    assert_eq!(input.as_array().unwrap().len(), 2);
    assert_eq!(text(member(item(input, 0), "role")), "user");
    assert_eq!(text(member(item(input, 1), "role")), "system");
    assert_eq!(
        text(member(item(member(&wanted, "tools"), 0), "type")),
        "image_generation"
    );
}

#[test]
fn chat_content_is_normalized() {
    assert_eq!(
        printed(&normalize_chat_content(&parse("\"hi\""))),
        "[{\"text\":\"hi\",\"type\":\"input_text\"}]"
    );
    assert_eq!(
        printed(&normalize_chat_content(&parse("[{\"type\":\"text\",\"text\":\"hi\"}]"))),
        "[{\"text\":\"hi\",\"type\":\"input_text\"}]"
    );
    assert_eq!(
        printed(&normalize_chat_content(&parse(
            "[{\"type\":\"image_url\",\"image_url\":{\"url\":\"http://i\"}}]"
        ))),
        "[{\"image_url\":\"http://i\",\"type\":\"input_image\"}]"
    );
}

#[test]
fn image_model_is_validated() {
    assert!(validate_image_model(&parse("{}")).is_ok());
    assert!(validate_image_model(&parse("{\"model\":\"gpt-image-2\"}")).is_ok());
    let message = validate_image_model(&parse("{\"model\":\"other\"}")).err().unwrap();
    assert!(message.contains("other"));
    assert!(build_images_generation_request(&parse("{\"prompt\":\"p\"}")).is_ok());
}

#[test]
fn image_options_are_passed_on() {
    assert_eq!(image_response_format(&parse("{}")), "b64_json");
    assert_eq!(image_response_format(&parse("{\"response_format\":\"url\"}")), "url");
    assert_eq!(image_response_format(&parse("{\"output_format\":\"png\"}")), "png");
    let tool = image_generation_tool(&parse("{\"size\":\"1024x1024\",\"other\":1}"));
    assert_eq!(text(member(&tool, "size")), "1024x1024");
    assert_eq!(text(member(&tool, "type")), "image_generation");
    assert!(tool.get("other").is_none());
}

#[test]
fn images_to_edit_are_found_in_json() {
    let body = parse(
        "{\"images\":[\"http://a\",{\"image_url\":\"http://b\"},{\"image_url\":{\"url\":\"http://d\"}}],\"image\":\"http://c\"}",
    );
    assert_eq!(
        extract_json_edit_images(&body),
        vec!["http://c", "http://b", "http://d"]
    );
    let (wanted, format) = build_images_edit_request(
        &vec![header("content-type", "application/json")],
        "{\"prompt\":\"p\",\"image\":\"http://c\",\"response_format\":\"url\"}".as_bytes(),
    )
    .unwrap();
    assert_eq!(format, "url");
    assert!(printed(&wanted).contains("http://c"));
}

#[test]
fn edit_without_boundary_is_refused() {
    let refused = build_images_edit_request(
        &vec![header("content-type", "multipart/form-data")],
        b"",
    );
    assert_eq!(refused.err().as_deref(), Some("multipart missing boundary"));
}

#[test]
fn multipart_parts_are_split() {
    let body = b"--b\r\none\r\n--b\r\ntwo\r\n--b--\r\n";
    let parts = split_multipart_parts(body, b"--b");
    assert_eq!(parts, vec![&b"one\r\n"[..], &b"two\r\n"[..], &b"--\r\n"[..]]);
    assert_eq!(find_subslice(b"abc", b"bc"), Some(1));
    assert_eq!(find_subslice(b"abc", b"cd"), None);
    assert_eq!(find_subslice(b"abc", b""), Some(0));
    assert_eq!(trim_part_prefix(b"\r\nx"), b"x");
    assert_eq!(trim_part_suffix(b"x\r\n"), b"x");
    assert_eq!(trim_part_suffix(b"x--"), b"x");
}

#[test]
fn multipart_headers_are_read() {
    let headers = "Content-Disposition: form-data; name=\"image\"; filename=\"a\"\r\nCONTENT-TYPE: image/webp ";
    assert_eq!(multipart_name(headers).as_deref(), Some("image"));
    assert_eq!(multipart_content_type(headers).as_deref(), Some("image/webp"));
    assert_eq!(multipart_name("Content-Disposition: form-data"), None);
    assert_eq!(multipart_content_type("X: y"), None);
}

#[test]
fn image_types_are_detected() {
    assert_eq!(detect_image_mime(b"\x89PNG\r\n\x1a\n..."), "image/png");
    assert_eq!(detect_image_mime(b"\xff\xd8\xff\xe0"), "image/jpeg");
    assert_eq!(detect_image_mime(b"GIF87a"), "image/gif");
    assert_eq!(detect_image_mime(b"GIF89a"), "image/gif");
    assert_eq!(detect_image_mime(b"RIFF....WEBP"), "image/webp");
    assert_eq!(detect_image_mime(b"RIFF....WAVE"), "application/octet-stream");
    assert_eq!(detect_image_mime(b""), "application/octet-stream");
}

#[test]
fn written_form_is_read_back() {
    let mut body = Vec::new();
    body.extend_from_slice(b"--mark\r\nContent-Disposition: form-data; name=\"prompt\"\r\n\r\n one \r\n");
    body.extend_from_slice(b"--mark\r\nContent-Disposition: form-data; name=\"images\"\r\n\r\n");
    body.extend_from_slice(b"GIF89a\r\n\r\n\x00\xff-");
    body.extend_from_slice(b"\r\n--mark\r\nContent-Disposition: form-data; name=\"bad\xff\"\r\n\r\n\xff");
    body.extend_from_slice(b"\r\n--mark--\r\n");
    let form = parse_multipart_form("multipart/form-data; boundary=\"mark\"", &body).unwrap();
    assert_eq!(form.images, vec!["data:image/gif;base64,R0lGODlhDQoNCgD/LQ=="]);
    let fields = Json::Object(form.raw_fields);
    assert_eq!(text(member(&fields, "prompt")), "one");
    assert_eq!(text(member(&fields, "bad\u{fffd}")), "\u{fffd}");
    assert!(parse_multipart_form("multipart/form-data", &body).is_none());
}

#[test]
fn targets_are_resolved() {
    assert_eq!(normalize_target(Some("/v1/x?y".to_string()), "/v1/x".to_string()), "/v1/x?y");
    assert_eq!(normalize_target(None, "/v1/x".to_string()), "/v1/x");
    assert_eq!(resolve_upstream_target("/v1/responses").as_deref(), Some("/responses"));
    assert_eq!(resolve_upstream_target("/v1").as_deref(), Some("/"));
    assert_eq!(resolve_upstream_target("/v1?x=1").as_deref(), Some("/?x=1"));
    assert_eq!(resolve_upstream_target("/v2/x"), None);
    assert!(path_is("/v1/models?x", "/v1/models"));
    assert!(!path_is("/v1/models2", "/v1/models"));
    assert!(is_models_request("/v1/models"));
}

#[test]
fn retryable_statuses_try_the_next_account() {
    for status in [401u16, 403, 408, 429, 500, 502, 503, 504] {
        assert!(should_try_next_account(status));
    }
    for status in [200u16, 400, 404, 422, 501] {
        assert!(!should_try_next_account(status));
    }
}

#[test]
fn errors_are_json() {
    match json_error(400, "no \"way\"") {
        HttpReply::Json { status, body } => {
            assert_eq!(status, 400);
            assert_eq!(
                body,
                b"{\"error\":{\"code\":400,\"message\":\"no \\\"way\\\"\",\"type\":\"codex_gateway_error\"}}"
            );
        }
        other => panic!("{:?}", other),
    }
    assert!(matches!(
        json_ok(&Json::Null),
        HttpReply::Json { status: 200, .. }
    ));
}

#[test]
fn upstream_sees_the_account_and_not_the_key() {
    let sent = send_upstream(
        &request(
            "POST",
            "/v1/responses",
            vec![
                header("Authorization", "Bearer secret"),
                header("X-Api-Key", "secret"),
                header("host", "localhost"),
                header("x-other", "kept"),
            ],
            "{}",
        ),
        "https://up",
        &account(),
    )
    .unwrap();
    assert_eq!(sent.method, "POST");
    assert_eq!(sent.url, "https://up/responses");
    assert_eq!(sent.body, b"{}");
    let shown: Vec<(String, String)> = sent
        .headers
        .iter()
        .map(|h| (h.name.clone(), String::from_utf8(h.value.clone()).unwrap()))
        .collect();
    let wanted: Vec<(String, String)> = [
        ("x-other", "kept"),
        ("authorization", "Bearer token-1"),
        (
            "user-agent",
            "codex-tui/0.118.0 (Linux; x86_64) cockpit-codex-cli/0.1.0",
        ),
        ("originator", "codex-tui"),
        ("chatgpt-account-id", "acc-1"),
        ("accept", "application/json"),
        ("content-type", "application/json"),
    ]
    .iter()
    .map(|(a, b)| (a.to_string(), b.to_string()))
    .collect();
    assert_eq!(shown, wanted);
}

#[test]
fn given_headers_are_not_replaced() {
    let mut bare = account();
    bare.account_id = None;
    let sent = send_upstream(
        &request(
            "GET",
            "/v1/x",
            vec![header("Accept", "text/event-stream")],
            "",
        ),
        "",
        &bare,
    )
    .unwrap();
    let names: Vec<&str> = sent.headers.iter().map(|h| h.name.as_str()).collect();
    assert_eq!(names, vec!["Accept", "authorization", "user-agent", "originator"]);
    assert!(send_upstream(&request("GET", "/x", Vec::new(), ""), "", &bare).is_none());
}

#[test]
fn made_key_lets_clients_in() {
    let key = Store::new("/d".to_string()).rotate_gateway_key().key.0;
    let shown = vec![header("authorization", &format!("Bearer {}", key))];
    assert!(authorized(&shown, &key));
    assert!(authorized(&vec![header("x-api-key", &key)], &key));
    assert!(!authorized(&Vec::new(), &key));
}

#[test]
fn preparing_twice_changes_nothing_more() {
    let body = r#"{"input":"hi","model":"codex-mini-latest","previous_response_id":"resp-1"}"#;
    let (once, _) = prepare_gateway_request(post("/v1/responses", body)).unwrap();
    let first = once.body.clone();
    let (twice, _) = prepare_gateway_request(once).unwrap();
    assert_eq!(twice.body, first);
    assert_eq!(previous_response_id(&first).as_deref(), Some("resp-1"));
    let kept = parse_bytes(&first);
    assert_eq!(text(member(&kept, "input")), "hi");
}

#[test]
fn adapted_requests_go_to_responses() {
    let chat = prepare_gateway_request(post("/v1/chat/completions", "{}")).unwrap().0;
    assert_eq!(resolve_upstream_target(&chat.target).as_deref(), Some("/responses"));
    let image = prepare_gateway_request(post("/v1/images/edits", r#"{"prompt":"p","image":"http://i"}"#));
    assert_eq!(image.unwrap().0.target, "/v1/responses");
}

#[test]
fn errors_are_read_back() {
    match json_error(404, "caf\u{e9}") {
        HttpReply::Json { body, .. } => {
            let error = parse_bytes(&body);
            let error = member(&error, "error");
            assert_eq!(text(member(error, "message")), "caf\u{e9}");
            assert_eq!(member(error, "code").as_i64(), Some(404));
        }
        other => panic!("{:?}", other),
    }
}

#[test]
fn nesting_has_a_limit() {
    let deep = |n: usize| format!("{}{}", "[".repeat(n), "]".repeat(n));
    assert!(parse_json(deep(127).as_bytes()).is_ok());
    assert!(parse_json(deep(128).as_bytes()).is_err());
}

#[test]
fn written_images_are_read_back() {
    for boundary in ["B", "", "a\u{e9}b"] {
        let images: Vec<&[u8]> = vec![b"\xff\xd8\xff", b"", b"\r\n-\r\n"];
        let mut body = Vec::new();
        for image in &images {
            body.extend_from_slice(
                format!(
                    "--{}\r\nContent-Disposition: form-data; name=\"image\"\r\n\r\n",
                    boundary
                )
                .as_bytes(),
            );
            body.extend_from_slice(image);
            body.extend_from_slice(b"\r\n");
        }
        body.extend_from_slice(format!("--{}--\r\n", boundary).as_bytes());
        let content_type = format!("multipart/form-data; boundary={}", boundary);
        let form = parse_multipart_form(&content_type, &body).unwrap();
        assert_eq!(
            form.images,
            vec![
                "data:image/jpeg;base64,/9j/",
                "data:application/octet-stream;base64,",
                "data:application/octet-stream;base64,DQotDQo=",
            ]
        );
        assert_eq!(form.raw_fields.len(), 0);
    }
}

#[test]
fn key_of_the_reader_is_read_in_its_own_way() {
    let key = "$serde_json::private::RawValue";
    assert_eq!(
        printed(&parse(&format!("{{\"{}\":\"[1]\"}}", key))),
        "[1]"
    );
    assert_eq!(
        printed(&parse(&format!("{{\"a\":0,\"{}\":\"1\"}}", key))),
        format!("{{\"{}\":\"1\",\"a\":0}}", key)
    );
}

#[test]
fn numbers_with_a_fraction_do_not_lose_the_previous_response() {
    let body = r#"{"temperature":0.7,"previous_response_id":"resp-1","x":[1.5,1e300]}"#;
    let (ready, _) = prepare_gateway_request(post("/v1/responses", body)).unwrap();
    assert_eq!(previous_response_id(&ready.body).as_deref(), Some("resp-1"));
    let read = parse_bytes(&ready.body);
    assert_eq!(printed(member(&read, "temperature")), "0.7");
}
