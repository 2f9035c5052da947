//! Accounts: the tokens in an auth file, the claims of an access token, and when a token is
//! refreshed.
use crate::gateway::http;
use crate::json;
use crate::json::{Json, Tree};
use crate::laws::accounts;
use crate::outside;
use crate::text;
use vstd::prelude::*;

verus! {

/// Where access tokens are refreshed.
pub const TOKEN_ENDPOINT: &'static str = "https://auth.openai.com/oauth/token";

/// The client on whose behalf tokens are refreshed.
pub const CLIENT_ID: &'static str = "app_EMoamEEZ73f0CkXaXp7hrann";

/// How many seconds before its end an access token is refreshed.
pub const TOKEN_REFRESH_SKEW_SECONDS: i64 = 300;

/// An imported account.
#[derive(Debug)]
pub struct Account {
    pub id: String,
    pub name: String,
    pub email: String,
    pub account_id: Option<String>,
    pub organization_id: Option<String>,
    pub user_id: Option<String>,
    pub id_token: Option<String>,
    pub access_token: String,
    pub refresh_token: Option<String>,
    pub imported_at: i64,
    pub updated_at: i64,
}

/// What an account is.
pub struct AccountView {
    pub id: Seq<char>,
    pub name: Seq<char>,
    pub email: Seq<char>,
    pub account_id: Option<Seq<char>>,
    pub organization_id: Option<Seq<char>>,
    pub user_id: Option<Seq<char>>,
    pub id_token: Option<Seq<char>>,
    pub access_token: Seq<char>,
    pub refresh_token: Option<Seq<char>>,
    pub imported_at: int,
    pub updated_at: int,
}

impl View for Account {
    type V = AccountView;

    open spec fn view(&self) -> AccountView {
        AccountView {
            id: self.id@,
            name: self.name@,
            email: self.email@,
            account_id: text::opt_text(self.account_id),
            organization_id: text::opt_text(self.organization_id),
            user_id: text::opt_text(self.user_id),
            id_token: text::opt_text(self.id_token),
            access_token: self.access_token@,
            refresh_token: text::opt_text(self.refresh_token),
            imported_at: self.imported_at as int,
            updated_at: self.updated_at as int,
        }
    }
}

impl Clone for Account {
    fn clone(&self) -> (r: Account)
        ensures
            r == *self,
    {
        Account {
            id: self.id.clone(),
            name: self.name.clone(),
            email: self.email.clone(),
            account_id: self.account_id.clone(),
            organization_id: self.organization_id.clone(),
            user_id: self.user_id.clone(),
            id_token: self.id_token.clone(),
            access_token: self.access_token.clone(),
            refresh_token: self.refresh_token.clone(),
            imported_at: self.imported_at,
            updated_at: self.updated_at,
        }
    }
}

/// What is shown of an account: no token.
#[derive(Debug, Clone)]
pub struct AccountSummary {
    pub id: String,
    pub name: String,
    pub email: String,
    pub account_id: Option<String>,
    pub organization_id: Option<String>,
    pub has_refresh_token: bool,
    pub token_expired: bool,
    pub updated_at: i64,
}

/// What a summary is.
pub struct SummaryView {
    pub id: Seq<char>,
    pub name: Seq<char>,
    pub email: Seq<char>,
    pub account_id: Option<Seq<char>>,
    pub organization_id: Option<Seq<char>>,
    pub has_refresh_token: bool,
    pub token_expired: bool,
    pub updated_at: int,
}

impl View for AccountSummary {
    type V = SummaryView;

    open spec fn view(&self) -> SummaryView {
        SummaryView {
            id: self.id@,
            name: self.name@,
            email: self.email@,
            account_id: text::opt_text(self.account_id),
            organization_id: text::opt_text(self.organization_id),
            has_refresh_token: self.has_refresh_token,
            token_expired: self.token_expired,
            updated_at: self.updated_at as int,
        }
    }
}

/// An account as it was imported, and where it came from.
#[derive(Debug, Clone)]
pub struct ImportedAccount {
    pub account: Account,
    pub source: String,
}

/// The tokens of an account.
#[derive(Debug, Clone)]
pub struct CodexTokens {
    pub id_token: Option<String>,
    pub access_token: String,
    pub refresh_token: Option<String>,
}

/// What the tokens of an account are.
pub struct TokensView {
    pub id_token: Option<Seq<char>>,
    pub access_token: Seq<char>,
    pub refresh_token: Option<Seq<char>>,
}

impl View for CodexTokens {
    type V = TokensView;

    open spec fn view(&self) -> TokensView {
        TokensView {
            id_token: text::opt_text(self.id_token),
            access_token: self.access_token@,
            refresh_token: text::opt_text(self.refresh_token),
        }
    }
}

/// `a`, or `b` where there is no `a`.
pub open spec fn first_of<T>(a: Option<T>, b: Option<T>) -> Option<T> {
    match a {
        Some(_) => a,
        None => b,
    }
}

/// The text of the member `key` without the white space around it, where anything is left.
pub open spec fn field(tree: Tree, key: Seq<char>) -> Option<Seq<char>> {
    match tree.get_text(key) {
        Some(s) => if text::trimmed(s).len() > 0 {
            Some(text::trimmed(s))
        } else {
            None
        },
        None => None,
    }
}

/// The part of an auth file in which the tokens are looked for: the first of these members that
/// is there, and else the file itself.
pub open spec fn token_holder(tree: Tree) -> Tree {
    if tree.get("tokens"@) is Some {
        tree.get("tokens"@).unwrap()
    } else if tree.get("auth"@) is Some {
        tree.get("auth"@).unwrap()
    } else if tree.get("oauth"@) is Some {
        tree.get("oauth"@).unwrap()
    } else if tree.get("credentials"@) is Some {
        tree.get("credentials"@).unwrap()
    } else {
        tree
    }
}

/// The tokens in an auth file.
pub open spec fn tokens_in(tree: Tree) -> Option<TokensView> {
    let holder = token_holder(tree);
    match first_of(field(holder, "access_token"@), field(holder, "accessToken"@)) {
        Some(access_token) => Some(
            TokensView {
                id_token: first_of(field(holder, "id_token"@), field(holder, "idToken"@)),
                access_token,
                refresh_token: first_of(
                    field(holder, "refresh_token"@),
                    field(holder, "refreshToken"@),
                ),
            },
        ),
        None => None,
    }
}

/// The text of the member `key` without the white space around it, where anything is left.
pub fn string_field(value: &Json, key: &str) -> (r: Option<String>)
    ensures
        text::opt_text(r) == field(value@, key@),
{
    match value.get_text(key) {
        Some(s) => {
            let t: String = text::trim(s.as_str());
            if t.as_str().is_empty() {
                None
            } else {
                Some(t)
            }
        },
        None => None,
    }
}

/// The field `a`, or the field `b` where there is no `a`.
fn either_field(value: &Json, a: &str, b: &str) -> (r: Option<String>)
    ensures
        text::opt_text(r) == first_of(field(value@, a@), field(value@, b@)),
{
    match string_field(value, a) {
        Some(s) => Some(s),
        None => string_field(value, b),
    }
}

/// The tokens in an auth file.
pub fn extract_tokens(value: &Json) -> (r: Option<CodexTokens>)
    ensures
        match r {
            Some(tokens) => tokens_in(value@) == Some(tokens@),
            None => tokens_in(value@) is None,
        },
{
    let holder: &Json = match value.get("tokens") {
        Some(holder) => holder,
        None => match value.get("auth") {
            Some(holder) => holder,
            None => match value.get("oauth") {
                Some(holder) => holder,
                None => match value.get("credentials") {
                    Some(holder) => holder,
                    None => value,
                },
            },
        },
    };
    match either_field(holder, "access_token", "accessToken") {
        Some(access_token) => Some(
            CodexTokens {
                id_token: either_field(holder, "id_token", "idToken"),
                access_token,
                refresh_token: either_field(holder, "refresh_token", "refreshToken"),
            },
        ),
        None => None,
    }
}

/// The bytes whose base64 for URLs is `s`.
pub open spec fn base64_url_bytes(s: Seq<char>) -> Option<Seq<u8>> {
    if exists|bytes: Seq<u8>| #[trigger] outside::base64(bytes, true) == s {
        Some(choose|bytes: Seq<u8>| #[trigger] outside::base64(bytes, true) == s)
    } else {
        None
    }
}

/// The claims of a token: the JSON in the second of its parts.
pub open spec fn jwt_claims(token: Seq<char>) -> Option<Tree> {
    let parts = text::split_on(token, '.');
    if parts.len() < 2 {
        None
    } else {
        match base64_url_bytes(parts[1]) {
            Some(bytes) => json::parsed(bytes),
            None => None,
        }
    }
}

/// When a token ends, in seconds since the start of 1970, as its claims say.
pub open spec fn jwt_end(token: Seq<char>) -> Option<int> {
    match jwt_claims(token) {
        Some(claims) => match claims.get("exp"@) {
            Some(end) => end.int64(),
            None => None,
        },
        None => None,
    }
}

/// Whether a token has ended at the second `at`. One that does not say when it ends never has.
pub open spec fn jwt_expired(token: Seq<char>, at: int) -> bool {
    jwt_end(token) matches Some(end) && at >= end
}

/// The claims of a token.
pub fn decode_jwt_payload(token: &str) -> (r: Option<Json>)
    ensures
        match r {
            Some(claims) => jwt_claims(token@) == Some(claims@),
            None => jwt_claims(token@) is None,
        },
{
    let parts: Vec<String> = text::split(token, '.');
    assert(text::texts(parts@).len() == parts@.len());
    if parts.len() < 2 {
        return None;
    }
    assert(text::texts(parts@)[1] == parts@[1]@);
    match outside::base64_url_decode(parts[1].as_str()) {
        Some(bytes) => {
            proof {
                let chosen = base64_url_bytes(parts@[1]@).unwrap();
                outside::base64_is_injective(chosen, bytes@, true);
            }
            match json::parse_json(bytes.as_slice()) {
                Ok(claims) => Some(claims),
                Err(_) => None,
            }
        },
        None => None,
    }
}

/// Whether a token has ended at the second `now + skew_seconds`.
pub fn is_jwt_expired_at(token: &str, skew_seconds: i64, now: i64) -> (r: bool)
    ensures
        r == jwt_expired(token@, now + skew_seconds),
{
    match decode_jwt_payload(token) {
        Some(claims) => match claims.get("exp") {
            Some(end) => match end.as_i64() {
                Some(end) => (now as i128) + (skew_seconds as i128) >= end as i128,
                None => false,
            },
            None => false,
        },
        None => false,
    }
}

/// Whether a token ends within `skew_seconds` from now.
pub fn is_jwt_expired_with_skew(token: &str, skew_seconds: i64) -> (r: bool)
    ensures
        exists|now: int|
            0 <= now <= outside::LAST_SECOND && r == #[trigger] jwt_expired(
                token@,
                now + skew_seconds,
            ),
{
    let now: i64 = outside::now_seconds();
    is_jwt_expired_at(token, skew_seconds, now)
}

/// Whether a token has ended.
pub fn is_jwt_expired(token: &str) -> (r: bool)
    ensures
        exists|now: int|
            0 <= now <= outside::LAST_SECOND && r == #[trigger] jwt_expired(token@, now),
{
    is_jwt_expired_with_skew(token, 0)
}

impl Account {
    /// What is shown of this account at the second `now`.
    pub open spec fn summary_view(self, now: int) -> SummaryView {
        SummaryView {
            id: self.id@,
            name: self.name@,
            email: self.email@,
            account_id: text::opt_text(self.account_id),
            organization_id: text::opt_text(self.organization_id),
            has_refresh_token: self.refresh_token is Some,
            token_expired: jwt_expired(self.access_token@, now),
            updated_at: self.updated_at as int,
        }
    }

    /// Whether `summary` is what is shown of this account at some time.
    pub open spec fn is_shown_as(self, summary: SummaryView) -> bool {
        exists|now: int|
            0 <= now <= outside::LAST_SECOND && summary == #[trigger] self.summary_view(now)
    }

    /// What is shown of this account at the second `now`.
    pub fn summary_at(&self, now: i64) -> (r: AccountSummary)
        ensures
            r@ == self.summary_view(now as int),
    {
        AccountSummary {
            id: self.id.clone(),
            name: self.name.clone(),
            email: self.email.clone(),
            account_id: self.account_id.clone(),
            organization_id: self.organization_id.clone(),
            has_refresh_token: self.refresh_token.is_some(),
            token_expired: is_jwt_expired_at(self.access_token.as_str(), 0, now),
            updated_at: self.updated_at,
        }
    }

    /// What is shown of this account now.
    pub fn summary(&self) -> (r: AccountSummary)
        ensures
            self.is_shown_as(r@),
    {
        let now: i64 = outside::now_seconds();
        self.summary_at(now)
    }
}

/// The claims about the account among the claims of an access token.
pub open spec fn auth_claims(claims: Tree) -> Tree {
    match claims.get("https://api.openai.com/auth"@) {
        Some(auth) => auth,
        None => Tree::Null,
    }
}

/// The account that an auth file describes, under the given name, with the identifier `id`,
/// imported at `now`. The e-mail address is the one given, or the one that the file or the access
/// token names, or one made of `spare_id`.
pub open spec fn described_account(
    tree: Tree,
    name: Seq<char>,
    email: Option<Seq<char>>,
    id: Seq<char>,
    spare_id: Seq<char>,
    now: int,
) -> Option<AccountView> {
    match tokens_in(tree) {
        Some(tokens) => {
            let claims = match jwt_claims(tokens.access_token) {
                Some(claims) => claims,
                None => Tree::Null,
            };
            let auth = auth_claims(claims);
            let known_email = first_of(
                email,
                first_of(
                    first_of(field(tree, "email"@), field(tree, "outlook_email"@)),
                    first_of(field(claims, "email"@), field(auth, "email"@)),
                ),
            );
            Some(
                AccountView {
                    id,
                    name,
                    email: match known_email {
                        Some(email) => email,
                        None => "imported-"@ + spare_id + "@unknown.local"@,
                    },
                    account_id: first_of(
                        first_of(field(tree, "account_id"@), field(tree, "chatgpt_account_id"@)),
                        first_of(
                            field(auth, "chatgpt_account_id"@),
                            field(claims, "chatgpt_account_id"@),
                        ),
                    ),
                    organization_id: first_of(
                        first_of(field(auth, "poid"@), field(auth, "organization_id"@)),
                        field(claims, "organization_id"@),
                    ),
                    user_id: first_of(field(auth, "chatgpt_user_id"@), field(claims, "sub"@)),
                    id_token: tokens.id_token,
                    access_token: tokens.access_token,
                    refresh_token: tokens.refresh_token,
                    imported_at: now,
                    updated_at: now,
                },
            )
        },
        None => None,
    }
}

/// `a`, or else the field `b`, or else the field `c`.
fn or_fields(
    a: Option<String>,
    value: &Json,
    b: &str,
    c: &str,
) -> (r: Option<String>)
    ensures
        text::opt_text(r) == first_of(
            text::opt_text(a),
            first_of(field(value@, b@), field(value@, c@)),
        ),
{
    match a {
        Some(a) => Some(a),
        None => either_field(value, b, c),
    }
}

/// The account that an auth file describes.
pub fn import_account(
    value: &Json,
    name: &str,
    email_override: Option<&str>,
    id: String,
    spare_id: String,
    now: i64,
) -> (r: Option<Account>)
    ensures
        match r {
            Some(account) => described_account(
                value@,
                name@,
                text::opt_str(email_override),
                id@,
                spare_id@,
                now as int,
            ) == Some(account@),
            None => tokens_in(value@) is None,
        },
        r matches Some(account) ==> accounts::has_due_email(
            value@,
            text::opt_str(email_override),
            spare_id@,
            account@,
        ),
{
    proof {
        accounts::imported_account_has_the_due_email(
            value@,
            name@,
            text::opt_str(email_override),
            id@,
            spare_id@,
            now as int,
        );
    }
    let tokens: CodexTokens = match extract_tokens(value) {
        Some(tokens) => tokens,
        None => {
            return None;
        },
    };
    let claims: Json = match decode_jwt_payload(tokens.access_token.as_str()) {
        Some(claims) => claims,
        None => Json::Null,
    };
    let none: Json = Json::Null;
    let auth: &Json = match claims.get("https://api.openai.com/auth") {
        Some(auth) => auth,
        None => &none,
    };
    let given: Option<String> = match email_override {
        Some(email) => Some(email.to_owned()),
        None => None,
    };
    let in_file: Option<String> = or_fields(given, value, "email", "outlook_email");
    let known: Option<String> = match in_file {
        Some(email) => Some(email),
        None => match string_field(&claims, "email") {
            Some(email) => Some(email),
            None => string_field(auth, "email"),
        },
    };
    let email: String = match known {
        Some(email) => email,
        None => {
            let start: String = text::joined("imported-", spare_id.as_str());
            text::joined(start.as_str(), "@unknown.local")
        },
    };
    let in_file: Option<String> = either_field(value, "account_id", "chatgpt_account_id");
    let account_id: Option<String> = match in_file {
        Some(account_id) => Some(account_id),
        None => match string_field(auth, "chatgpt_account_id") {
            Some(account_id) => Some(account_id),
            None => string_field(&claims, "chatgpt_account_id"),
        },
    };
    let organization_id: Option<String> = match either_field(auth, "poid", "organization_id") {
        Some(organization_id) => Some(organization_id),
        None => string_field(&claims, "organization_id"),
    };
    let user_id: Option<String> = match string_field(auth, "chatgpt_user_id") {
        Some(user_id) => Some(user_id),
        None => string_field(&claims, "sub"),
    };
    Some(
        Account {
            id,
            name: name.to_owned(),
            email,
            account_id,
            organization_id,
            user_id,
            id_token: tokens.id_token,
            access_token: tokens.access_token,
            refresh_token: tokens.refresh_token,
            imported_at: now,
            updated_at: now,
        },
    )
}

/// Why an auth file is not imported.
#[derive(Debug, Clone)]
pub enum ImportError {
    /// The file is no JSON; the text says why.
    NotJson(String),
    /// The file holds no access token.
    NoAccessToken,
}

/// Imports the auth file with the content `content`, which was read from `source`.
pub fn import_auth_file(
    source: &str,
    content: &str,
    name: &str,
    email_override: Option<&str>,
) -> (r: Result<ImportedAccount, ImportError>)
    ensures
        match r {
            Ok(imported) => {
                &&& json::parsed(text::utf8(content@)) is Some
                &&& imported.source@ == source@
                &&& exists|id: Seq<char>, spare_id: Seq<char>, now: int|
                    {
                        &&& outside::is_random_id(id)
                        &&& outside::is_random_id(spare_id)
                        &&& 0 <= now <= outside::LAST_SECOND * 1000 + 999
                        &&& #[trigger] described_account(
                            json::parsed(text::utf8(content@)).unwrap(),
                            name@,
                            text::opt_str(email_override),
                            id,
                            spare_id,
                            now,
                        ) == Some(imported.account@)
                        &&& accounts::has_due_email(
                            json::parsed(text::utf8(content@)).unwrap(),
                            text::opt_str(email_override),
                            spare_id,
                            imported.account@,
                        )
                    }
            },
            Err(ImportError::NotJson(error)) => json::json_parsed(
                text::utf8(content@),
            ) matches Err(e) && e == error@,
            Err(ImportError::NoAccessToken) => json::parsed(text::utf8(content@)) matches Some(tree)
                && tokens_in(tree) is None,
        },
{
    let value: Json = match json::parse_json(content.as_bytes()) {
        Ok(value) => value,
        Err(error) => {
            return Err(ImportError::NotJson(error));
        },
    };
    let spare_id: String = outside::random_id();
    let now: i64 = outside::now_millis();
    let id: String = outside::random_id();
    match import_account(&value, name, email_override, id, spare_id, now) {
        Some(account) => Ok(ImportedAccount { account, source: source.to_owned() }),
        None => Err(ImportError::NoAccessToken),
    }
}

/// What is done about an account's access token before it is used.
#[derive(Debug, Clone)]
pub enum Freshness {
    /// It is used as it is.
    Fresh,
    /// It is refreshed first, with this token.
    Refresh(String),
    /// It ends too soon, and there is nothing to refresh it with.
    Expired,
}

/// What is done about the access token of `account` at the second `now`.
pub fn ensure_fresh_at(account: &Account, now: i64) -> (r: Freshness)
    ensures
        match r {
            Freshness::Fresh => !jwt_expired(
                account.access_token@,
                now + TOKEN_REFRESH_SKEW_SECONDS,
            ),
            Freshness::Refresh(token) => {
                &&& jwt_expired(account.access_token@, now + TOKEN_REFRESH_SKEW_SECONDS)
                &&& account.refresh_token == Some(token)
            },
            Freshness::Expired => {
                &&& jwt_expired(account.access_token@, now + TOKEN_REFRESH_SKEW_SECONDS)
                &&& account.refresh_token is None
            },
        },
{
    if !is_jwt_expired_at(account.access_token.as_str(), TOKEN_REFRESH_SKEW_SECONDS, now) {
        return Freshness::Fresh;
    }
    match &account.refresh_token {
        Some(token) => Freshness::Refresh(token.clone()),
        None => Freshness::Expired,
    }
}

/// What is done about the access token of `account` now.
pub fn ensure_fresh(account: &Account) -> (r: Freshness)
    ensures
        exists|now: int|
            {
                &&& 0 <= now <= outside::LAST_SECOND
                &&& (r is Fresh) == !#[trigger] jwt_expired(
                    account.access_token@,
                    now + TOKEN_REFRESH_SKEW_SECONDS,
                )
            },
        r matches Freshness::Refresh(token) ==> account.refresh_token == Some(token),
        r is Expired ==> account.refresh_token is None,
{
    let now: i64 = outside::now_seconds();
    ensure_fresh_at(account, now)
}

/// The text of the error for an account whose access token ends and cannot be refreshed.
pub open spec fn expired_text(email: Seq<char>) -> Seq<char> {
    "account "@ + email + " has expired access token and no refresh token"@
}

/// The text of the error for an account whose access token ends and cannot be refreshed.
pub fn expired_message(account: &Account) -> (r: String)
    ensures
        r@ == expired_text(account.email@),
{
    let start: String = text::joined("account ", account.email.as_str());
    text::joined(start.as_str(), " has expired access token and no refresh token")
}

/// What is asked of the token endpoint.
pub open spec fn refresh_request(refresh_token: Seq<char>) -> Tree {
    json::object(
        seq![
            ("client_id"@, Tree::Text(CLIENT_ID@)),
            ("grant_type"@, Tree::Text("refresh_token"@)),
            ("refresh_token"@, Tree::Text(refresh_token)),
        ],
    )
}

/// The body of the request to the token endpoint.
pub fn refresh_request_body(refresh_token: &str) -> (r: Vec<u8>)
    ensures
        r@ == json::json_printed(refresh_request(refresh_token@)),
{
    let members: Vec<(&str, Json)> = vec![
        ("client_id", Json::text(CLIENT_ID)),
        ("grant_type", Json::text("refresh_token")),
        ("refresh_token", Json::text(refresh_token)),
    ];
    assert(json::pair_trees(members@) == seq![
        ("client_id"@, Tree::Text(CLIENT_ID@)),
        ("grant_type"@, Tree::Text("refresh_token"@)),
        ("refresh_token"@, Tree::Text(refresh_token@)),
    ]);
    json::print_json(&json::json_object(members))
}

/// Why a reply of the token endpoint gives no tokens.
#[derive(Debug, Clone)]
pub enum RefreshError {
    /// The endpoint refused.
    Status { status: u16, body_len: usize },
    /// The reply is no JSON.
    NotJson,
    /// The reply names no access token.
    NoAccessToken,
}

/// The tokens in a successful reply of the token endpoint: those that it names, and the present
/// ones where it names none.
pub open spec fn refreshed_tokens(
    reply: Tree,
    refresh_token: Seq<char>,
    id_token: Option<Seq<char>>,
) -> Option<TokensView> {
    match reply.get_text("access_token"@) {
        Some(access_token) => Some(
            TokensView {
                id_token: first_of(reply.get_text("id_token"@), id_token),
                access_token,
                refresh_token: first_of(reply.get_text("refresh_token"@), Some(refresh_token)),
            },
        ),
        None => None,
    }
}

/// What a reply of the token endpoint, with the HTTP status `status` and the body `body`, gives.
pub open spec fn refresh_outcome(
    status: u16,
    body: Seq<char>,
    refresh_token: Seq<char>,
    id_token: Option<Seq<char>>,
) -> Result<TokensView, RefreshError> {
    if !http::is_success(status) {
        Err(RefreshError::Status { status, body_len: text::utf8(body).len() as usize })
    } else {
        match json::parsed(text::utf8(body)) {
            Some(reply) => match refreshed_tokens(reply, refresh_token, id_token) {
                Some(tokens) => Ok(tokens),
                None => Err(RefreshError::NoAccessToken),
            },
            None => Err(RefreshError::NotJson),
        }
    }
}

/// Reads the reply of the token endpoint, with the HTTP status `status` and the body `body`.
pub fn refresh_access_token(
    status: u16,
    body: &str,
    refresh_token: &str,
    current_id_token: Option<&str>,
) -> (r: Result<CodexTokens, RefreshError>)
    ensures
        match r {
            Ok(tokens) => refresh_outcome(
                status,
                body@,
                refresh_token@,
                text::opt_str(current_id_token),
            ) matches Ok(t) && t == tokens@,
            Err(error) => refresh_outcome(
                status,
                body@,
                refresh_token@,
                text::opt_str(current_id_token),
            ) matches Err(e) && e == error,
        },
{
    let bytes: &[u8] = body.as_bytes();
    if !http::succeeded(status) {
        return Err(RefreshError::Status { status, body_len: bytes.len() });
    }
    let reply: Json = match json::parse_json(bytes) {
        Ok(reply) => reply,
        Err(_) => {
            return Err(RefreshError::NotJson);
        },
    };
    let access_token: String = match reply.get_text("access_token") {
        Some(token) => token.clone(),
        None => {
            return Err(RefreshError::NoAccessToken);
        },
    };
    let id_token: Option<String> = match reply.get_text("id_token") {
        Some(token) => Some(token.clone()),
        None => match current_id_token {
            Some(token) => Some(token.to_owned()),
            None => None,
        },
    };
    let refresh_token: Option<String> = match reply.get_text("refresh_token") {
        Some(token) => Some(token.clone()),
        None => Some(refresh_token.to_owned()),
    };
    Ok(CodexTokens { id_token, access_token, refresh_token })
}

impl RefreshError {
    /// Whether the status is one that HTTP knows.
    pub open spec fn wf(self) -> bool {
        self matches RefreshError::Status { status, .. } ==> 100 <= status <= 999
    }

    /// The text of this error.
    pub open spec fn text(self) -> Seq<char> {
        match self {
            RefreshError::Status { status, body_len } => "token refresh failed: status="@
                + text::decimal(status as nat) + seq![' '] + outside::reason_phrase(status)
                + ", body_len="@ + text::decimal(body_len as nat),
            RefreshError::NotJson => "parse token refresh response"@,
            RefreshError::NoAccessToken => "token refresh response missing access_token"@,
        }
    }

    /// The text of this error.
    pub fn message(&self) -> (r: String)
        requires
            self.wf(),
        ensures
            r@ == self.text(),
    {
        match self {
            RefreshError::Status { status, body_len } => {
                let code: String = outside::status_text(*status);
                let mut r: String = text::joined("token refresh failed: status=", code.as_str());
                r.append(", body_len=");
                let size: String = text::decimal_text(*body_len as u64);
                r.append(size.as_str());
                assert(r@ == self.text());
                r
            },
            RefreshError::NotJson => "parse token refresh response".to_owned(),
            RefreshError::NoAccessToken => "token refresh response missing access_token".to_owned(),
        }
    }
}

impl AccountView {
    /// This account with new tokens, at the millisecond `now`: what it has stays where the new
    /// tokens name nothing, and the token that it was refreshed with stays where they name none.
    pub open spec fn with_tokens(
        self,
        tokens: TokensView,
        refresh_token: Seq<char>,
        now: int,
    ) -> AccountView {
        AccountView {
            id_token: first_of(tokens.id_token, self.id_token),
            access_token: tokens.access_token,
            refresh_token: first_of(tokens.refresh_token, Some(refresh_token)),
            updated_at: now,
            ..self
        }
    }
}

impl Account {
    /// Takes new tokens, at the millisecond `now`.
    pub fn take_tokens(&mut self, tokens: CodexTokens, refresh_token: String, now: i64)
        ensures
            final(self)@ == old(self)@.with_tokens(tokens@, refresh_token@, now as int),
            final(self).access_token@ == tokens@.access_token,
            tokens@.refresh_token matches Some(rotated) ==> final(self)@.refresh_token == Some(
                rotated,
            ),
            tokens@.refresh_token is None ==> final(self)@.refresh_token == Some(refresh_token@),
            tokens@.id_token matches Some(renewed) ==> final(self)@.id_token == Some(renewed),
            tokens@.id_token is None ==> final(self)@.id_token == old(self)@.id_token,
    {
        if tokens.id_token.is_some() {
            self.id_token = tokens.id_token;
        }
        self.access_token = tokens.access_token;
        self.refresh_token = match tokens.refresh_token {
            Some(token) => Some(token),
            None => Some(refresh_token),
        };
        self.updated_at = now;
    }
}

/// The header of a token that is not signed.
pub open spec fn unsigned_header() -> Tree {
    json::object(seq![("alg"@, Tree::Text("none"@)), ("typ"@, Tree::Text("JWT"@))])
}

/// The token with the claims `claims` that is not signed.
pub open spec fn unsigned_token(claims: Tree) -> Seq<char> {
    outside::base64(json::json_printed(unsigned_header()), true) + seq!['.'] + outside::base64(
        json::json_printed(claims),
        true,
    ) + seq!['.']
}

/// The second part of a token that is not signed is the base64 of its claims.
proof fn lemma_unsigned_parts(header: Seq<u8>, claims: Seq<u8>, token: Seq<char>)
    requires
        token == outside::base64(header, true) + seq!['.'] + outside::base64(claims, true) + seq![
            '.',
        ],
    ensures
        text::split_on(token, '.').len() == 3,
        text::split_on(token, '.')[1] == outside::base64(claims, true),
{
    let a = outside::base64(header, true);
    let b = outside::base64(claims, true);
    if a.contains('.') {
        outside::base64_url_alphabet(header, '.');
    }
    if b.contains('.') {
        outside::base64_url_alphabet(claims, '.');
    }
    let empty = Seq::<char>::empty();
    let rest = b + seq!['.'] + empty;
    assert(token == a + seq!['.'] + rest);
    text::span_of_free_prefix(a, '.', rest);
    text::span_of_free_prefix(b, '.', empty);
    assert(text::split_on(empty, '.') == seq![empty]);
    assert(text::split_on(rest, '.') == seq![b] + seq![empty]);
    assert(text::split_on(token, '.') == seq![a] + text::split_on(rest, '.'));
}

/// A token with the given claims that is not signed. Its claims are read back as they were given,
/// where they are such that what is written for them is read back, and but for numbers that are no
/// integers, where they have no key that `serde_json` has for its own use and are read at all.
pub fn unsigned_jwt(payload: &Json) -> (r: String)
    ensures
        r@ == unsigned_token(payload@),
        json::is_plain(payload@) ==> jwt_claims(r@) == Some(payload@),
        json::raw_free(payload@) ==> (jwt_claims(r@) matches Some(claims) ==> json::alike(
            claims,
            payload@,
        )),
{
    let members: Vec<(&str, Json)> = vec![("alg", Json::text("none")), ("typ", Json::text("JWT"))];
    assert(json::pair_trees(members@) == seq![
        ("alg"@, Tree::Text("none"@)),
        ("typ"@, Tree::Text("JWT"@)),
    ]);
    let header: Vec<u8> = json::print_json(&json::json_object(members));
    let claims: Vec<u8> = json::print_json(payload);
    let mut r: String = outside::base64_url(header.as_slice());
    r.push('.');
    let second: String = outside::base64_url(claims.as_slice());
    r.append(second.as_str());
    r.push('.');
    proof {
        assert(r@ == unsigned_token(payload@));
        lemma_unsigned_parts(header@, claims@, r@);
        let chosen = base64_url_bytes(second@).unwrap();
        outside::base64_is_injective(chosen, claims@, true);
    }
    r
}

/// A refresh loses nothing: the account keeps who it is, it can be refreshed again, and an identity
/// token that it has stays where no new one comes.
pub proof fn refresh_loses_nothing(
    account: AccountView,
    status: u16,
    body: Seq<char>,
    refresh_token: Seq<char>,
    now: int,
)
    requires
        refresh_outcome(status, body, refresh_token, account.id_token) is Ok,
    ensures
        ({
            let tokens = refresh_outcome(status, body, refresh_token, account.id_token).unwrap();
            let renewed = account.with_tokens(tokens, refresh_token, now);
            &&& renewed.id == account.id
            &&& renewed.name == account.name
            &&& renewed.email == account.email
            &&& renewed.account_id == account.account_id
            &&& renewed.organization_id == account.organization_id
            &&& renewed.user_id == account.user_id
            &&& renewed.imported_at == account.imported_at
            &&& renewed.refresh_token is Some
            &&& account.id_token is Some ==> renewed.id_token is Some
            &&& json::parsed(text::utf8(body)) matches Some(reply) && reply.get_text(
                "access_token"@,
            ) == Some(renewed.access_token)
        }),
{
}

} // verus!
