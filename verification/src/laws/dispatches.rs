//! In which order accounts are tried, and what comes of it.
use crate::account;
use crate::account::AccountView;
use crate::gateway::answer;
use crate::gateway::answer::{AnswerView, ErrorView};
use crate::gateway::dispatch;
use crate::gateway::dispatch::{ActionView, DispatchView, EventView, PhaseView};
use crate::gateway::request;
use crate::gateway::request::RequestView;
use crate::gateway::state;
use crate::gateway::state::GatewayView;
use crate::json;
use crate::json::Tree;
use crate::laws::requests;
use crate::outside;
use crate::text;
use vstd::prelude::*;

verus! {

/// Whether the access token of an account has ended, or ends within five minutes, as its claims say.
pub open spec fn ends_soon(tried: AccountView, now: int) -> bool {
    &&& account::jwt_claims(tried.access_token) matches Some(claims)
    &&& claims.get("exp"@) matches Some(Tree::Integer(end))
    &&& i64::MIN <= end <= i64::MAX
    &&& end <= now + 300
}

/// Whether an account can be of no use: its token ends, and there is none to refresh it with.
pub open spec fn is_useless(tried: AccountView, now: int) -> bool {
    ends_soon(tried, now) && tried.refresh_token is None
}

/// Whether the upstream can be asked for a target.
pub open spec fn has_version(asked: RequestView) -> bool {
    "/v1"@.is_prefix_of(asked.target)
}

/// Whether, at the account `j`, what is done is what is due: its token is refreshed where it ends
/// soon, and else the upstream is asked with it.
pub open spec fn is_tried(
    d: DispatchView,
    j: int,
    now: int,
    after: DispatchView,
    action: ActionView,
) -> bool {
    &&& after.at == j
    &&& after.accounts == d.accounts
    &&& after.request == d.request
    &&& after.base == d.base
    &&& if ends_soon(d.accounts[j], now) {
        &&& d.accounts[j].refresh_token matches Some(token)
        &&& action == ActionView::Refresh(token)
        &&& after.phase == (PhaseView::Refreshing { token, forced: false })
    } else {
        &&& request::upstream_request(d.request, d.base, d.accounts[j]) matches Some(upstream)
        &&& action == ActionView::Send(upstream)
        &&& after.phase == (PhaseView::Sending { retried: false })
    }
}

/// The error of an account that is of no use.
pub open spec fn useless_error(tried: AccountView) -> ErrorView {
    ErrorView {
        status: 401,
        message: "account "@ + tried.email + " refresh failed: "@ + ("account "@ + tried.email
            + " has expired access token and no refresh token"@),
    }
}

/// The first account that can be of use is tried, whatever comes before it.
pub proof fn first_useful_account_is_tried(d: DispatchView, now: int, j: int)
    requires
        0 <= d.at <= j < d.accounts.len(),
        forall|i: int| d.at <= i < j ==> is_useless(#[trigger] d.accounts[i], now),
        !is_useless(d.accounts[j], now),
        has_version(d.request),
    ensures
        is_tried(d, j, now, dispatch::trying(d, now).0, dispatch::trying(d, now).1),
    decreases j - d.at,
{
    if d.at < j {
        assert(is_useless(d.accounts[d.at], now));
        first_useful_account_is_tried(d.passed_over(useless_error(d.account())), now, j);
    }
}

/// Where no account is left that can be of use, the request fails: with the error of the last one,
/// or with the one that there was where none was left at all.
pub proof fn without_a_useful_account_it_fails(d: DispatchView, now: int)
    requires
        0 <= d.at <= d.accounts.len(),
        forall|i: int| d.at <= i < d.accounts.len() ==> is_useless(#[trigger] d.accounts[i], now),
    ensures
        dispatch::trying(d, now).0.phase is Over,
        dispatch::trying(d, now).1 == ActionView::Fail(
            if d.at == d.accounts.len() {
                d.last_error
            } else {
                useless_error(d.accounts.last())
            },
        ),
    decreases d.accounts.len() - d.at,
{
    if d.at < d.accounts.len() {
        assert(is_useless(d.accounts[d.at], now));
        without_a_useful_account_it_fails(d.passed_over(useless_error(d.account())), now);
    }
}

/// Whether an event means that the account that was tried has failed, and the error of it.
pub open spec fn fails_with(d: DispatchView, event: EventView, error: ErrorView) -> bool {
    let email = d.accounts[d.at].email;
    match event {
        EventView::RefreshNotSent => error.status == 401 && error.message == "account "@ + email
            + " refresh failed: "@ + "send token refresh request"@,
        EventView::RefreshNotRead => error.status == 401 && error.message == "account "@ + email
            + " refresh failed: "@ + "read token refresh response"@,
        EventView::NotSaved(reason) => error.status == 401 && error.message == "account "@ + email
            + " refresh failed: "@ + reason,
        EventView::NotSent => error.status == 502 && error.message == "send upstream request"@,
        EventView::Refreshed { status, body } => ({
            &&& d.phase matches PhaseView::Refreshing { token, .. }
            &&& account::refresh_outcome(
                status,
                body,
                token,
                d.accounts[d.at].id_token,
            ) matches Err(reason)
            &&& error.status == 401
            &&& error.message == "account "@ + email + " refresh failed: "@ + reason.text()
        }),
        EventView::Answered { status, body, .. } => ({
            &&& d.phase matches PhaseView::Sending { retried }
            &&& !(200 <= status < 300)
            &&& if status == 401 && !retried {
                &&& d.accounts[d.at].refresh_token is None
                &&& error.status == 401
                &&& error.message == "account "@ + email + " refresh failed: "@
                    + "missing refresh token"@
            } else {
                &&& retried || status == 401 || status == 403 || status == 408 || status == 429
                    || status == 500 || 502 <= status <= 504
                &&& error.status == status
                &&& error.message == answer::upstream_error_text(
                    status,
                    match body {
                        Ok(bytes) => outside::text_in(bytes),
                        Err(_) => Seq::empty(),
                    },
                )
            }
        }),
        EventView::Saved => false,
    }
}

/// Where an account fails, the next one that can be of use is tried; where there is none, the
/// request fails with what the last account failed with.
pub proof fn next_account_is_tried_after_a_failure(
    d: DispatchView,
    event: EventView,
    error: ErrorView,
    now: int,
    now_millis: int,
    j: int,
)
    requires
        d.wf(),
        d.expects(event),
        fails_with(d, event, error),
        has_version(d.request),
        d.at < j <= d.accounts.len(),
        forall|i: int| d.at < i < j ==> is_useless(#[trigger] d.accounts[i], now),
        j < d.accounts.len() ==> !is_useless(d.accounts[j], now),
    ensures
        ({
            let (after, action) = dispatch::stepped(d, event, now, now_millis);
            if j < d.accounts.len() {
                is_tried(d, j, now, after, action)
            } else {
                &&& after.phase is Over
                &&& action == ActionView::Fail(
                    if j == d.at + 1 {
                        error
                    } else {
                        useless_error(d.accounts.last())
                    },
                )
            }
        }),
{
    let next = d.passed_over(error);
    assert(dispatch::stepped(d, event, now, now_millis) == dispatch::trying(next, now));
    if j < d.accounts.len() {
        first_useful_account_is_tried(next, now, j);
    } else {
        without_a_useful_account_it_fails(next, now);
    }
}

/// Where the token endpoint gives new tokens, the account is saved with them, and once it is saved
/// the upstream is asked with them; the other accounts stay as they are.
pub proof fn renewed_account_is_saved_and_used(
    d: DispatchView,
    status: u16,
    body: Seq<char>,
    reply: Tree,
    now: int,
    now_millis: int,
    later: int,
    later_millis: int,
)
    requires
        d.wf(),
        d.phase is Refreshing,
        200 <= status < 300,
        json::parsed(text::utf8(body)) == Some(reply),
        reply.get_text("access_token"@) is Some,
        has_version(d.request),
    ensures
        ({
            let before = d.accounts[d.at];
            let (mid, first) = dispatch::stepped(
                d,
                EventView::Refreshed { status, body },
                now,
                now_millis,
            );
            let (after, second) = dispatch::stepped(mid, EventView::Saved, later, later_millis);
            &&& first matches ActionView::Save(saved)
            &&& Some(saved.access_token) == reply.get_text("access_token"@)
            &&& match reply.get_text("refresh_token"@) {
                Some(rotated) => saved.refresh_token == Some(rotated),
                None => saved.refresh_token == Some(d.phase->token),
            }
            &&& match reply.get_text("id_token"@) {
                Some(renewed) => saved.id_token == Some(renewed),
                None => saved.id_token == before.id_token,
            }
            &&& saved.updated_at == now_millis
            &&& saved == (AccountView {
                access_token: saved.access_token,
                refresh_token: saved.refresh_token,
                id_token: saved.id_token,
                updated_at: saved.updated_at,
                ..before
            })
            &&& mid.phase is Saving && mid.at == d.at
            &&& mid.accounts == d.accounts.update(d.at, saved)
            &&& second matches ActionView::Send(sent)
            &&& request::upstream_request(d.request, d.base, saved) == Some(sent)
            &&& requests::says(
                sent.headers,
                "authorization"@,
                "Bearer "@ + text::trimmed(saved.access_token),
            )
            &&& after.at == d.at
            &&& after.accounts == mid.accounts
            &&& after.phase == (PhaseView::Sending { retried: d.phase->Refreshing_forced })
        }),
{
    let (mid, first) = dispatch::stepped(d, EventView::Refreshed { status, body }, now, now_millis);
    let saved = mid.accounts[mid.at];
    let kept = request::forwarded(d.request.headers);
    let own = request::account_headers(saved);
    let sent = request::upstream_request(d.request, d.base, saved).unwrap();
    assert(sent.headers[kept.len() as int] == own[0]);
    assert(own[0] == (crate::gateway::http::HeaderView {
        name: "authorization"@,
        value: text::utf8("Bearer "@ + text::trimmed(saved.access_token)),
    }));
}

/// An answer that went well is the answer, in full, of the account that was asked; where it cannot
/// be read, the request fails.
pub proof fn good_answer_is_given(
    d: DispatchView,
    status: u16,
    content_type: Option<Seq<u8>>,
    body: Result<Seq<u8>, Seq<char>>,
    now: int,
    now_millis: int,
)
    requires
        d.wf(),
        d.phase is Sending,
        200 <= status < 300,
    ensures
        dispatch::stepped(
            d,
            EventView::Answered { status, content_type, body },
            now,
            now_millis,
        ).1 == match body {
            Ok(bytes) => ActionView::Finish {
                reply: AnswerView { status, content_type, body: bytes },
                account_id: d.accounts[d.at].id,
            },
            Err(error) => ActionView::Fail(
                ErrorView { status: 502, message: "read upstream failed: "@ + error },
            ),
        },
{
}

/// A request is tried from the first account in the order that is due, and fails for want of
/// accounts where there is none.
pub proof fn request_is_opened_with_all_accounts(
    g: GatewayView,
    asked: RequestView,
    accounts: Seq<AccountView>,
)
    ensures
        ({
            let d = state::opening(g, asked, accounts);
            &&& d.at == 0
            &&& d.request == asked
            &&& d.base == g.base
            &&& d.accounts == state::ordered(g, accounts, asked.body)
            &&& d.last_error.status == 503
            &&& accounts.len() == 0 ==> d.last_error.message == "no accounts imported"@
            &&& accounts.len() > 0 ==> d.last_error.message == "no usable account"@
        }),
{
    state::order_loses_no_account(g, accounts, asked.body);
    let order = state::ordered(g, accounts, asked.body);
    broadcast use vstd::seq_lib::group_to_multiset_ensures;

    assert(order.to_multiset().len() == order.len());
    assert(accounts.to_multiset().len() == accounts.len());
}

/// Requests that follow none are tried in the order of the accounts, from the one whose turn it is
/// and round from the last to the first.
pub proof fn accounts_are_tried_in_turn(
    g: GatewayView,
    accounts: Seq<AccountView>,
    body: Seq<u8>,
    k: int,
)
    requires
        answer::followed_response(body) is None,
        0 <= k < accounts.len(),
    ensures
        ({
            let n = accounts.len() as int;
            let start = g.cursor as int % n;
            let order = state::ordered(g, accounts, body);
            &&& order.len() == n
            &&& order[k] == accounts[if start + k < n {
                start + k
            } else {
                start + k - n
            }]
        }),
{
    let n = accounts.len() as int;
    let start = g.cursor as int % n;
    vstd::arithmetic::div_mod::lemma_mod_bound(g.cursor as int, n);
    let order = state::ordered(g, accounts, body);
    assert(order == accounts.skip(start) + accounts.take(start));
    if start + k < n {
        assert(order[k] == accounts.skip(start)[k]);
    } else {
        assert(order[k] == accounts.take(start)[start + k - n]);
    }
}

/// Whether `p` is the place of the one account with an identifier.
pub open spec fn is_only(accounts: Seq<AccountView>, id: Seq<char>, p: int) -> bool {
    &&& 0 <= p < accounts.len()
    &&& accounts[p].id == id
    &&& forall|i: int| 0 <= i < accounts.len() && i != p ==> (#[trigger] accounts[i]).id != id
}

/// The accounts with and without an identifier, of those that have another one.
proof fn lemma_having_none(accounts: Seq<AccountView>, id: Seq<char>)
    requires
        forall|i: int| 0 <= i < accounts.len() ==> (#[trigger] accounts[i]).id != id,
    ensures
        state::having(accounts, id, true) == Seq::<AccountView>::empty(),
        state::having(accounts, id, false) == accounts,
    decreases accounts.len(),
{
    if accounts.len() > 0 {
        let fewer = accounts.drop_last();
        assert forall|i: int| 0 <= i < fewer.len() implies (#[trigger] fewer[i]).id != id by {
            assert(fewer[i] == accounts[i]);
        }
        lemma_having_none(fewer, id);
        assert(accounts[accounts.len() - 1].id != id);
        assert(fewer.push(accounts.last()) =~= accounts);
    } else {
        assert(accounts =~= Seq::<AccountView>::empty());
    }
}

/// The accounts with and without an identifier that one of them has.
proof fn lemma_having_one(accounts: Seq<AccountView>, id: Seq<char>, p: int)
    requires
        is_only(accounts, id, p),
    ensures
        state::having(accounts, id, true) == seq![accounts[p]],
        state::having(accounts, id, false) == accounts.remove(p),
    decreases accounts.len(),
{
    let n = accounts.len() - 1;
    let fewer = accounts.drop_last();
    if p == n {
        assert forall|i: int| 0 <= i < fewer.len() implies (#[trigger] fewer[i]).id != id by {
            assert(fewer[i] == accounts[i]);
        }
        lemma_having_none(fewer, id);
        assert(Seq::<AccountView>::empty().push(accounts[p]) =~= seq![accounts[p]]);
        assert(accounts.remove(p) =~= fewer);
    } else {
        assert(is_only(fewer, id, p)) by {
            assert(fewer[p] == accounts[p]);
            assert forall|i: int| 0 <= i < fewer.len() && i != p implies (#[trigger] fewer[i]).id
                != id by {
                assert(fewer[i] == accounts[i]);
            }
        }
        lemma_having_one(fewer, id, p);
        assert(accounts[n].id != id);
        assert(accounts.remove(p) =~= fewer.remove(p).push(accounts[n]));
    }
}

/// A request that follows a response is tried first with the account that gave it, and then with
/// the others in their order. Where that is not known, or the account is gone, the accounts are
/// tried in their order.
pub proof fn follow_on_is_tried_with_its_account_first(
    g: GatewayView,
    accounts: Seq<AccountView>,
    body: Seq<u8>,
    previous: Seq<char>,
    p: int,
)
    requires
        answer::followed_response(body) == Some(previous),
    ensures
        ({
            let order = state::ordered(g, accounts, body);
            let known = g.affinity.contains_key(previous);
            let id = g.affinity[previous];
            &&& known && is_only(accounts, id, p) ==> order == seq![accounts[p]] + accounts.remove(
                p,
            )
            &&& known && (forall|i: int|
                0 <= i < accounts.len() ==> (#[trigger] accounts[i]).id != id) ==> order == accounts
            &&& !known ==> order == accounts
        }),
{
    let id = g.affinity[previous];
    if is_only(accounts, id, p) {
        lemma_having_one(accounts, id, p);
    }
    if forall|i: int| 0 <= i < accounts.len() ==> (#[trigger] accounts[i]).id != id {
        lemma_having_none(accounts, id);
        assert(Seq::<AccountView>::empty() + accounts =~= accounts);
    }
}

/// A turn is taken just by a request that follows none, where there are accounts; nothing else of
/// the gateway changes with it.
pub proof fn turn_is_taken_by_new_requests(g: GatewayView, count: nat, body: Seq<u8>)
    ensures
        ({
            let after = state::turned(g, count, body);
            &&& after.key == g.key && after.base == g.base && after.affinity == g.affinity
            &&& count == 0 || answer::followed_response(body) is Some ==> after.cursor == g.cursor
            &&& count > 0 && answer::followed_response(body) is None ==> if g.cursor
                == usize::MAX {
                after.cursor == 0
            } else {
                after.cursor == g.cursor + 1
            }
        }),
{
}

/// A response is remembered with the account that gave it, and nothing else of the gateway changes
/// with it.
pub proof fn giver_of_a_response_is_remembered(
    g: GatewayView,
    reply: AnswerView,
    adapter: answer::AdapterView,
    account_id: Seq<char>,
)
    ensures
        ({
            let after = state::remembering(g, reply, adapter, account_id);
            &&& after.key == g.key && after.base == g.base && after.cursor == g.cursor
            &&& answer::remembered(reply, adapter) is None ==> after.affinity == g.affinity
            &&& answer::remembered(reply, adapter) matches Some(id) ==> after.affinity.contains_key(
                id,
            ) && after.affinity[id] == account_id
        }),
{
}

} // verus!
