use chrono::Utc;
use codex_gateway_core::account::{
    decode_jwt_payload, ensure_fresh, ensure_fresh_at, expired_message, extract_tokens,
    import_account, import_auth_file, is_jwt_expired, is_jwt_expired_at, is_jwt_expired_with_skew,
    refresh_access_token, refresh_request_body, string_field, unsigned_jwt, CodexTokens, Freshness,
    ImportError, RefreshError,
};
use codex_gateway_core::json::{json_object, parse_json, print_json, Json};
use codex_gateway_core::Account;

fn text(s: &str) -> Json {
    Json::text(s)
}

fn parse(s: &str) -> Json {
    match parse_json(s.as_bytes()) {
        Ok(value) => value,
        Err(error) => panic!("{}", error),
    }
}

fn printed(value: &Json) -> String {
    String::from_utf8(print_json(value)).unwrap()
}

fn token_until(seconds: i64) -> String {
    unsigned_jwt(&json_object(vec![("exp", Json::Signed(seconds))]))
}

fn account(access_token: &str, refresh_token: Option<&str>) -> Account {
    Account {
        id: "id-1".to_string(),
        name: "main".to_string(),
        email: "dev@example.com".to_string(),
        account_id: None,
        organization_id: None,
        user_id: None,
        id_token: Some("identity".to_string()),
        access_token: access_token.to_string(),
        refresh_token: refresh_token.map(str::to_string),
        imported_at: 1,
        updated_at: 2,
    }
}

#[test]
fn imports_official_tokens_shape() {
    let claims = json_object(vec![
        ("exp", Json::Signed(Utc::now().timestamp() + 3600)),
        ("email", text("dev@example.com")),
        ("sub", text("user-1")),
        (
            "https://api.openai.com/auth",
            json_object(vec![
                ("chatgpt_account_id", text("acc-1")),
                ("poid", text("org-1")),
            ]),
        ),
    ]);
    let access = unsigned_jwt(&claims);
    let content = printed(&json_object(vec![(
        "tokens",
        json_object(vec![
            ("access_token", text(&access)),
            ("refresh_token", text("refresh-1")),
        ]),
    )]));

    let imported = import_auth_file("auth.json", &content, "main", None).unwrap();
    assert_eq!(imported.account.email, "dev@example.com");
    assert_eq!(imported.account.account_id.as_deref(), Some("acc-1"));
    assert_eq!(imported.account.organization_id.as_deref(), Some("org-1"));
    assert_eq!(imported.account.refresh_token.as_deref(), Some("refresh-1"));
    assert_eq!(imported.account.user_id.as_deref(), Some("user-1"));
    assert_eq!(imported.account.name, "main");
    assert_eq!(imported.account.access_token, access);
    assert_eq!(imported.source, "auth.json");
    assert_eq!(imported.account.id.len(), 36);
    assert_eq!(imported.account.imported_at, imported.account.updated_at);
}

#[test]
fn imports_camel_case_tokens_shape_with_email_override() {
    let access = token_until(Utc::now().timestamp() + 3600);
    let content = printed(&json_object(vec![
        ("accessToken", text(&access)),
        ("refreshToken", text("refresh-2")),
    ]));

    let imported =
        import_auth_file("auth.json", &content, "main", Some("manual@example.com")).unwrap();
    assert_eq!(imported.account.email, "manual@example.com");
    assert_eq!(imported.account.refresh_token.as_deref(), Some("refresh-2"));
}

#[test]
fn detects_expired_access_token() {
    let expired = token_until(Utc::now().timestamp() - 60);
    let fresh = token_until(Utc::now().timestamp() + 3600);
    assert!(is_jwt_expired(&expired));
    assert!(!is_jwt_expired(&fresh));
}

#[test]
fn auth_file_that_is_no_json_is_refused() {
    assert!(matches!(
        import_auth_file("auth.json", "{", "main", None),
        Err(ImportError::NotJson(_))
    ));
}

#[test]
fn auth_file_without_access_token_is_refused() {
    assert!(matches!(
        import_auth_file("auth.json", "{\"tokens\":{}}", "main", None),
        Err(ImportError::NoAccessToken)
    ));
}

#[test]
fn imported_account_is_described_by_its_arguments() {
    let value = parse("{\"access_token\":\"opaque\"}");
    let made = import_account(
        &value,
        "main",
        None,
        "id-7".to_string(),
        "spare-7".to_string(),
        1234,
    )
    .unwrap();
    assert_eq!(made.id, "id-7");
    assert_eq!(made.name, "main");
    assert_eq!(made.imported_at, 1234);
    assert_eq!(made.updated_at, 1234);
    assert_eq!(made.refresh_token, None);
    assert!(made.email.contains("spare-7"));
}

#[test]
fn tokens_are_found_where_they_stand() {
    for holder in ["tokens", "auth", "oauth", "credentials"] {
        let value = parse(&format!("{{\"{}\":{{\"access_token\":\"a\"}}}}", holder));
        assert_eq!(extract_tokens(&value).unwrap().access_token, "a");
    }
    assert!(extract_tokens(&parse("{\"tokens\":{\"refresh_token\":\"r\"}}")).is_none());
}

#[test]
fn text_fields_are_trimmed_and_not_empty() {
    let value = parse("{\"a\":\" x \",\"b\":\"  \",\"c\":1}");
    assert_eq!(string_field(&value, "a").as_deref(), Some("x"));
    assert_eq!(string_field(&value, "b"), None);
    assert_eq!(string_field(&value, "c"), None);
    assert_eq!(string_field(&value, "d"), None);
}

#[test]
fn claims_of_an_unsigned_token_are_read_back() {
    let claims = parse("{\"exp\":12345,\"list\":[1,\"two\",null,true],\"name\":\"\u{e4}\"}");
    let token = unsigned_jwt(&claims);
    let read = decode_jwt_payload(&token).unwrap();
    assert_eq!(printed(&read), printed(&claims));
    assert!(token.starts_with("eyJhbGciOiJub25lIiwidHlwIjoiSldUIn0."));
    assert!(token.ends_with('.'));
}

#[test]
fn token_without_claims_has_no_payload() {
    assert!(decode_jwt_payload("nothing").is_none());
    assert!(decode_jwt_payload("a.***.c").is_none());
    assert!(decode_jwt_payload("a.bm9wZQ.c").is_none());
}

#[test]
fn token_ends_at_its_second() {
    let token = token_until(1000);
    assert!(!is_jwt_expired_at(&token, 0, 999));
    assert!(is_jwt_expired_at(&token, 0, 1000));
    assert!(is_jwt_expired_at(&token, 300, 700));
    assert!(!is_jwt_expired_at(&token, 300, 699));
    let soon = token_until(Utc::now().timestamp() + 100);
    assert!(is_jwt_expired_with_skew(&soon, 300));
    assert!(!is_jwt_expired_with_skew(&soon, 0));
}

#[test]
fn fresh_token_is_used_and_ending_token_is_refreshed() {
    let token = token_until(1000);
    assert!(matches!(
        ensure_fresh_at(&account(&token, Some("r")), 699),
        Freshness::Fresh
    ));
    match ensure_fresh_at(&account(&token, Some("r")), 700) {
        Freshness::Refresh(refresh) => assert_eq!(refresh, "r"),
        other => panic!("{:?}", other),
    }
    assert!(matches!(
        ensure_fresh_at(&account(&token, None), 700),
        Freshness::Expired
    ));
    let lasting = token_until(Utc::now().timestamp() + 3600);
    assert!(matches!(
        ensure_fresh(&account(&lasting, None)),
        Freshness::Fresh
    ));
    assert_eq!(
        expired_message(&account(&token, None)),
        "account dev@example.com has expired access token and no refresh token"
    );
}

#[test]
fn refresh_is_asked_for_the_client() {
    let body = String::from_utf8(refresh_request_body("r-1")).unwrap();
    assert_eq!(
        body,
        "{\"client_id\":\"app_EMoamEEZ73f0CkXaXp7hrann\",\"grant_type\":\"refresh_token\",\"refresh_token\":\"r-1\"}"
    );
}

#[test]
fn refresh_reply_gives_tokens() {
    let tokens = refresh_access_token(
        200,
        "{\"access_token\":\"a2\",\"refresh_token\":\"r2\",\"id_token\":\"i2\"}",
        "r1",
        Some("i1"),
    )
    .unwrap();
    assert_eq!(tokens.access_token, "a2");
    assert_eq!(tokens.refresh_token.as_deref(), Some("r2"));
    assert_eq!(tokens.id_token.as_deref(), Some("i2"));
}

#[test]
fn refresh_keeps_what_is_not_renewed() {
    let tokens = refresh_access_token(200, "{\"access_token\":\"a2\"}", "r1", Some("i1")).unwrap();
    assert_eq!(tokens.refresh_token.as_deref(), Some("r1"));
    assert_eq!(tokens.id_token.as_deref(), Some("i1"));

    let mut renewed = account("a1", Some("r1"));
    renewed.take_tokens(tokens, "r1".to_string(), 77);
    assert_eq!(renewed.access_token, "a2");
    assert_eq!(renewed.refresh_token.as_deref(), Some("r1"));
    assert_eq!(renewed.id_token.as_deref(), Some("i1"));
    assert_eq!(renewed.updated_at, 77);
    assert_eq!(renewed.imported_at, 1);
    assert_eq!(renewed.email, "dev@example.com");

    let mut bare = account("a1", Some("r1"));
    bare.take_tokens(
        CodexTokens {
            id_token: None,
            access_token: "a3".to_string(),
            refresh_token: None,
        },
        "r1".to_string(),
        78,
    );
    assert_eq!(bare.id_token.as_deref(), Some("identity"));
    assert_eq!(bare.refresh_token.as_deref(), Some("r1"));
}

#[test]
fn refused_refresh_says_why() {
    match refresh_access_token(400, "{\"e\":1}", "r1", None) {
        Err(error) => assert_eq!(
            error.message(),
            "token refresh failed: status=400 Bad Request, body_len=7"
        ),
        Ok(_) => panic!("refused"),
    }
    match refresh_access_token(200, "no", "r1", None) {
        Err(error) => {
            assert!(matches!(error, RefreshError::NotJson));
            assert_eq!(error.message(), "parse token refresh response");
        }
        Ok(_) => panic!("no JSON"),
    }
    match refresh_access_token(200, "{}", "r1", None) {
        Err(error) => {
            assert!(matches!(error, RefreshError::NoAccessToken));
            assert_eq!(
                error.message(),
                "token refresh response missing access_token"
            );
        }
        Ok(_) => panic!("no token"),
    }
}

#[test]
fn summary_shows_no_token() {
    let token = token_until(1000);
    let shown = account(&token, Some("r")).summary_at(1000);
    assert_eq!(shown.id, "id-1");
    assert_eq!(shown.email, "dev@example.com");
    assert!(shown.has_refresh_token);
    assert!(shown.token_expired);
    assert_eq!(shown.updated_at, 2);
    let later = account(&token, None).summary_at(900);
    assert!(!later.has_refresh_token);
    assert!(!later.token_expired);
    let lasting = token_until(Utc::now().timestamp() + 3600);
    assert!(!account(&lasting, None).summary().token_expired);
}
