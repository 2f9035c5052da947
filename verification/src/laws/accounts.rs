//! What an account is made of, and what a refresh makes of it.
use crate::account;
use crate::account::{Account, AccountView, RefreshError, TokensView};
use crate::json;
use crate::json::Tree;
use crate::outside;
use crate::text;
use vstd::prelude::*;

verus! {

/// Whether the member `key` is the text `s`, but for white space around it, and more than that.
pub open spec fn names(tree: Tree, key: Seq<char>, s: Seq<char>) -> bool {
    tree.get_text(key) matches Some(whole) && s == text::trimmed(whole) && s.len() > 0
}

/// Whether the member `key` is a text with more than white space.
pub open spec fn has_name(tree: Tree, key: Seq<char>) -> bool {
    exists|s: Seq<char>| names(tree, key, s)
}

/// Whether `s` is what the first of two members that names anything names, and absent where
/// neither does.
pub open spec fn names_first(
    a: Tree,
    a_key: Seq<char>,
    b: Tree,
    b_key: Seq<char>,
    s: Option<Seq<char>>,
) -> bool {
    match s {
        Some(s) => names(a, a_key, s) || (!has_name(a, a_key) && names(b, b_key, s)),
        None => !has_name(a, a_key) && !has_name(b, b_key),
    }
}

/// Whether the e-mail address of an account is the one that is due: the one given; or else that of
/// the file, under either of its names; or else that of the claims, under either; and a made-up one
/// only where none of them names any.
pub open spec fn is_due_email(
    file: Tree,
    claims: Tree,
    auth: Tree,
    given: Option<Seq<char>>,
    spare_id: Seq<char>,
    email: Seq<char>,
) -> bool {
    match given {
        Some(given) => email == given,
        None => {
            &&& has_name(file, "email"@) ==> names(file, "email"@, email)
            &&& !has_name(file, "email"@) && has_name(file, "outlook_email"@) ==> names(
                file,
                "outlook_email"@,
                email,
            )
            &&& !has_name(file, "email"@) && !has_name(file, "outlook_email"@) && has_name(
                claims,
                "email"@,
            ) ==> names(claims, "email"@, email)
            &&& !has_name(file, "email"@) && !has_name(file, "outlook_email"@) && !has_name(
                claims,
                "email"@,
            ) && has_name(auth, "email"@) ==> names(auth, "email"@, email)
            &&& !has_name(file, "email"@) && !has_name(file, "outlook_email"@) && !has_name(
                claims,
                "email"@,
            ) && !has_name(auth, "email"@) ==> email == "imported-"@ + spare_id
                + "@unknown.local"@
        },
    }
}

/// Whether `holder` is the part of an auth file in which tokens are: the first of the members for
/// them that is there, and the file itself where none is.
pub open spec fn holds_tokens(file: Tree, holder: Tree) -> bool {
    ||| file.get("tokens"@) == Some(holder)
    ||| file.get("tokens"@) is None && file.get("auth"@) == Some(holder)
    ||| file.get("tokens"@) is None && file.get("auth"@) is None && file.get("oauth"@) == Some(
        holder,
    )
    ||| file.get("tokens"@) is None && file.get("auth"@) is None && file.get("oauth"@) is None
        && file.get("credentials"@) == Some(holder)
    ||| file.get("tokens"@) is None && file.get("auth"@) is None && file.get("oauth"@) is None
        && file.get("credentials"@) is None && holder == file
}

/// Whether `claims` are those of a token, and `auth` those among them about the account; both are
/// null where there are none.
pub open spec fn are_claims_of(token: Seq<char>, claims: Tree, auth: Tree) -> bool {
    &&& match account::jwt_claims(token) {
        Some(known) => claims == known,
        None => claims == Tree::Null,
    }
    &&& match claims.get("https://api.openai.com/auth"@) {
        Some(known) => auth == known,
        None => auth == Tree::Null,
    }
}

/// Whether an account has the e-mail address that is due, by the claims of its own access token.
pub open spec fn has_due_email(
    file: Tree,
    given: Option<Seq<char>>,
    spare_id: Seq<char>,
    made: AccountView,
) -> bool {
    forall|claims: Tree, auth: Tree| #[trigger]
        are_claims_of(made.access_token, claims, auth) ==> is_due_email(
            file,
            claims,
            auth,
            given,
            spare_id,
            made.email,
        )
}

/// What a member names is its field.
proof fn lemma_names(tree: Tree, key: Seq<char>)
    ensures
        forall|s: Seq<char>| #[trigger]
            names(tree, key, s) == (account::field(tree, key) == Some(s)),
        has_name(tree, key) == (account::field(tree, key) is Some),
{
    if let Some(s) = account::field(tree, key) {
        assert(names(tree, key, s));
    }
}

/// An auth file is imported exactly where it names an access token, under either spelling, in the
/// part that holds its tokens; the account then has the tokens that are named there.
pub proof fn import_takes_the_tokens(
    file: Tree,
    holder: Tree,
    name: Seq<char>,
    given: Option<Seq<char>>,
    id: Seq<char>,
    spare_id: Seq<char>,
    now: int,
)
    requires
        holds_tokens(file, holder),
    ensures
        ({
            let made = account::described_account(file, name, given, id, spare_id, now);
            &&& made is Some == (has_name(holder, "access_token"@) || has_name(
                holder,
                "accessToken"@,
            ))
            &&& made matches Some(made) ==> {
                &&& names_first(
                    holder,
                    "access_token"@,
                    holder,
                    "accessToken"@,
                    Some(made.access_token),
                )
                &&& names_first(
                    holder,
                    "refresh_token"@,
                    holder,
                    "refreshToken"@,
                    made.refresh_token,
                )
                &&& names_first(holder, "id_token"@, holder, "idToken"@, made.id_token)
            }
        }),
{
    lemma_names(holder, "access_token"@);
    lemma_names(holder, "accessToken"@);
    lemma_names(holder, "refresh_token"@);
    lemma_names(holder, "refreshToken"@);
    lemma_names(holder, "id_token"@);
    lemma_names(holder, "idToken"@);
}

/// An imported account has the e-mail address that is given; or else the one that the auth file
/// names, as that of the account or of its mailbox; or else one that the claims of the access token
/// name. An address is made up only where there is none of these.
pub proof fn import_takes_the_email(
    file: Tree,
    claims: Tree,
    auth: Tree,
    name: Seq<char>,
    given: Option<Seq<char>>,
    id: Seq<char>,
    spare_id: Seq<char>,
    now: int,
)
    requires
        account::described_account(file, name, given, id, spare_id, now) matches Some(made)
            && are_claims_of(made.access_token, claims, auth),
    ensures
        account::described_account(file, name, given, id, spare_id, now) matches Some(made)
            && is_due_email(file, claims, auth, given, spare_id, made.email),
{
    lemma_names(file, "email"@);
    lemma_names(file, "outlook_email"@);
    lemma_names(claims, "email"@);
    lemma_names(auth, "email"@);
}

/// An imported account has the e-mail address that is due.
pub proof fn imported_account_has_the_due_email(
    file: Tree,
    name: Seq<char>,
    given: Option<Seq<char>>,
    id: Seq<char>,
    spare_id: Seq<char>,
    now: int,
)
    ensures
        account::described_account(file, name, given, id, spare_id, now) matches Some(made)
            ==> has_due_email(file, given, spare_id, made),
{
    if let Some(made) = account::described_account(file, name, given, id, spare_id, now) {
        assert forall|claims: Tree, auth: Tree| #[trigger]
            are_claims_of(made.access_token, claims, auth) implies is_due_email(
            file,
            claims,
            auth,
            given,
            spare_id,
            made.email,
        ) by {
            import_takes_the_email(file, claims, auth, name, given, id, spare_id, now);
        }
    }
}

/// An imported account has the name and identifier that it was imported under, and the time. Its
/// account with the service is the one that the file names, and else the one that the claims name;
/// its organization and user are those of the claims.
pub proof fn import_takes_the_rest(
    file: Tree,
    claims: Tree,
    auth: Tree,
    name: Seq<char>,
    given: Option<Seq<char>>,
    id: Seq<char>,
    spare_id: Seq<char>,
    now: int,
)
    requires
        account::described_account(file, name, given, id, spare_id, now) matches Some(made)
            && are_claims_of(made.access_token, claims, auth),
    ensures
        ({
            &&& account::described_account(file, name, given, id, spare_id, now) matches Some(made)
            &&& made.id == id && made.name == name
            &&& made.imported_at == now && made.updated_at == now
            &&& if has_name(file, "account_id"@) || has_name(file, "chatgpt_account_id"@) {
                names_first(file, "account_id"@, file, "chatgpt_account_id"@, made.account_id)
            } else {
                names_first(
                    auth,
                    "chatgpt_account_id"@,
                    claims,
                    "chatgpt_account_id"@,
                    made.account_id,
                )
            }
            &&& if has_name(auth, "poid"@) {
                made.organization_id matches Some(s) && names(auth, "poid"@, s)
            } else {
                names_first(
                    auth,
                    "organization_id"@,
                    claims,
                    "organization_id"@,
                    made.organization_id,
                )
            }
            &&& names_first(auth, "chatgpt_user_id"@, claims, "sub"@, made.user_id)
        }),
{
    lemma_names(file, "account_id"@);
    lemma_names(file, "chatgpt_account_id"@);
    lemma_names(auth, "chatgpt_account_id"@);
    lemma_names(claims, "chatgpt_account_id"@);
    lemma_names(auth, "poid"@);
    lemma_names(auth, "organization_id"@);
    lemma_names(claims, "organization_id"@);
    lemma_names(auth, "chatgpt_user_id"@);
    lemma_names(claims, "sub"@);
}

/// The claims of a token are the JSON whose base64 stands behind its first dot and before the next,
/// where there is one.
pub proof fn claims_stand_in_the_second_part(first: Seq<char>, claims: Seq<u8>, rest: Seq<char>)
    requires
        !first.contains('.'),
        rest.len() == 0 || rest[0] == '.',
    ensures
        account::jwt_claims(first + seq!['.'] + outside::base64(claims, true) + rest)
            == json::parsed(claims),
{
    let part = outside::base64(claims, true);
    if part.contains('.') {
        outside::base64_url_alphabet(claims, '.');
    }
    let token = first + seq!['.'] + part + rest;
    let behind = part + rest;
    assert(token == first + seq!['.'] + behind);
    text::span_of_free_prefix(first, '.', behind);
    assert(text::split_on(token, '.') == seq![first] + text::split_on(behind, '.'));
    if rest.len() == 0 {
        assert(behind == part);
        text::span_of_free(part, '.');
    } else {
        let tail = rest.skip(1);
        assert(behind == part + seq!['.'] + tail);
        text::span_of_free_prefix(part, '.', tail);
    }
    assert(text::split_on(behind, '.')[0] == part);
    assert(text::split_on(token, '.')[1] == part);
    assert(outside::base64(claims, true) == part);
    let chosen = account::base64_url_bytes(part).unwrap();
    outside::base64_is_injective(chosen, claims, true);
}

/// A token without a dot has no claims, and neither has one whose second part is no base64.
pub proof fn other_tokens_have_no_claims(first: Seq<char>, part: Seq<char>, rest: Seq<char>)
    requires
        !first.contains('.'),
        !part.contains('.'),
        rest.len() == 0 || rest[0] == '.',
        forall|bytes: Seq<u8>| outside::base64(bytes, true) != part,
    ensures
        account::jwt_claims(first) is None,
        account::jwt_claims(first + seq!['.'] + part + rest) is None,
{
    text::span_of_free(first, '.');
    let token = first + seq!['.'] + part + rest;
    let behind = part + rest;
    assert(token == first + seq!['.'] + behind);
    text::span_of_free_prefix(first, '.', behind);
    assert(text::split_on(token, '.') == seq![first] + text::split_on(behind, '.'));
    if rest.len() == 0 {
        assert(behind == part);
        text::span_of_free(part, '.');
    } else {
        let tail = rest.skip(1);
        assert(behind == part + seq!['.'] + tail);
        text::span_of_free_prefix(part, '.', tail);
    }
    assert(text::split_on(token, '.')[1] == part);
}

/// A token has ended from the second on that its claims give as its end, and never where they give
/// none that is an integer of 64 bits.
pub proof fn token_ends_when_its_claims_say(token: Seq<char>, at: int)
    ensures
        account::jwt_expired(token, at) == ({
            &&& account::jwt_claims(token) matches Some(claims)
            &&& claims.get("exp"@) matches Some(Tree::Integer(end))
            &&& i64::MIN <= end <= i64::MAX
            &&& end <= at
        }),
{
}

/// After a refresh an account has the tokens of the reply: the access token that it names; its
/// refresh token where it names one, and the one that was used only where it names none; and its
/// identity token likewise, or else the one that the account had. Nothing else of it changes but
/// the time.
pub proof fn refresh_takes_the_tokens_of_the_reply(
    before: AccountView,
    status: u16,
    body: Seq<char>,
    reply: Tree,
    used: Seq<char>,
    now: int,
)
    requires
        200 <= status < 300,
        json::parsed(text::utf8(body)) == Some(reply),
    ensures
        ({
            let outcome = account::refresh_outcome(status, body, used, before.id_token);
            &&& outcome is Ok == (reply.get_text("access_token"@) is Some)
            &&& outcome matches Ok(tokens) ==> {
                let after = before.with_tokens(tokens, used, now);
                &&& reply.get_text("access_token"@) == Some(after.access_token)
                &&& match reply.get_text("refresh_token"@) {
                    Some(rotated) => after.refresh_token == Some(rotated),
                    None => after.refresh_token == Some(used),
                }
                &&& match reply.get_text("id_token"@) {
                    Some(renewed) => after.id_token == Some(renewed),
                    None => after.id_token == before.id_token,
                }
                &&& after.updated_at == now
                &&& after.id == before.id && after.name == before.name
                &&& after.email == before.email && after.account_id == before.account_id
                &&& after.organization_id == before.organization_id
                &&& after.user_id == before.user_id && after.imported_at == before.imported_at
            }
        }),
{
}

/// A reply that does not say that it went well, that is no JSON, or that names no access token,
/// gives no tokens.
pub proof fn other_replies_give_no_tokens(
    status: u16,
    body: Seq<char>,
    used: Seq<char>,
    id_token: Option<Seq<char>>,
)
    ensures
        ({
            let outcome = account::refresh_outcome(status, body, used, id_token);
            &&& !(200 <= status < 300) ==> outcome is Err
            &&& json::parsed(text::utf8(body)) is None ==> outcome is Err
            &&& (json::parsed(text::utf8(body)) matches Some(reply) ==> (reply.get_text(
                "access_token"@,
            ) is None ==> outcome is Err))
            &&& !(200 <= status < 300) ==> (outcome matches Err(
                RefreshError::Status { status: told, .. },
            ) && told == status)
        }),
{
}

/// Whatever tokens an account takes, it has them after: each that is there replaces the one that it
/// had.
pub proof fn new_tokens_replace_old_ones(
    before: AccountView,
    tokens: TokensView,
    used: Seq<char>,
    now: int,
)
    ensures
        before.with_tokens(tokens, used, now).access_token == tokens.access_token,
        tokens.refresh_token is Some ==> before.with_tokens(tokens, used, now).refresh_token
            == tokens.refresh_token,
        tokens.refresh_token is None ==> before.with_tokens(tokens, used, now).refresh_token
            == Some(used),
        tokens.id_token is Some ==> before.with_tokens(tokens, used, now).id_token
            == tokens.id_token,
        tokens.id_token is None ==> before.with_tokens(tokens, used, now).id_token
            == before.id_token,
{
}

/// A refresh is asked for with the refresh token, in the name of this client.
pub proof fn refresh_asks_with_the_token(refresh_token: Seq<char>)
    ensures
        account::refresh_request(refresh_token).get_text("refresh_token"@) == Some(refresh_token),
        account::refresh_request(refresh_token).get_text("grant_type"@) == Some("refresh_token"@),
        account::refresh_request(refresh_token).get_text("client_id"@) == Some(
            account::CLIENT_ID@,
        ),
{
    reveal_strlit("client_id");
    reveal_strlit("grant_type");
    reveal_strlit("refresh_token");
    assert("client_id"@.len() == 9 && "grant_type"@.len() == 10 && "refresh_token"@.len() == 13);
    let pairs = seq![
        ("client_id"@, Tree::Text(account::CLIENT_ID@)),
        ("grant_type"@, Tree::Text("refresh_token"@)),
        ("refresh_token"@, Tree::Text(refresh_token)),
    ];
    json::member_of_object(pairs, 0);
    json::member_of_object(pairs, 1);
    json::member_of_object(pairs, 2);
}

/// A summary shows who an account is, when it was last changed, whether it can be refreshed, and
/// whether its access token has ended.
pub proof fn summary_shows_the_account(shown: Account, now: int)
    ensures
        shown.summary_view(now).id == shown@.id,
        shown.summary_view(now).name == shown@.name,
        shown.summary_view(now).email == shown@.email,
        shown.summary_view(now).account_id == shown@.account_id,
        shown.summary_view(now).organization_id == shown@.organization_id,
        shown.summary_view(now).updated_at == shown@.updated_at,
        shown.summary_view(now).has_refresh_token == shown@.refresh_token is Some,
        shown.summary_view(now).token_expired == ({
            &&& account::jwt_claims(shown@.access_token) matches Some(claims)
            &&& claims.get("exp"@) matches Some(Tree::Integer(end))
            &&& i64::MIN <= end <= i64::MAX
            &&& end <= now
        }),
{
}

/// A failed refresh is told with its status and the size of the reply, or with what was wrong with
/// the reply.
pub proof fn failed_refresh_is_told(
    status: u16,
    body: Seq<char>,
    used: Seq<char>,
    id_token: Option<Seq<char>>,
)
    requires
        text::utf8(body).len() <= usize::MAX,
    ensures
        account::refresh_outcome(status, body, used, id_token) matches Err(error) ==> {
            if !(200 <= status < 300) {
                error.text() == "token refresh failed: status="@ + text::decimal(status as nat)
                    + seq![' '] + outside::reason_phrase(status) + ", body_len="@ + text::decimal(
                    text::utf8(body).len(),
                )
            } else if json::parsed(text::utf8(body)) is None {
                error.text() == "parse token refresh response"@
            } else {
                error.text() == "token refresh response missing access_token"@
            }
        },
{
}

} // verus!
